use bucket_sync::diff::find_missing_items;
use bucket_sync::listing::{list_from_pages, Lister, ListingPage};
use bucket_sync::paths::{download_path, is_safe_key, parent_dir, relative_key, staging_dir};
use bucket_sync::scheduler::{run_all, Action, ItemState, Scheduler};
use bucket_sync::select_region;
use bucket_sync::transfer::{
    choose_mode, plan_download, plan_uploads, OutsideStaging, RunMode, TransferError,
};
use std::cell::{Cell, RefCell};
use std::collections::BTreeMap;

fn strings(v: &[&str]) -> Vec<String> {
    v.iter().map(|s| s.to_string()).collect()
}

fn sorted(mut v: Vec<String>) -> Vec<String> {
    v.sort();
    v
}

fn page(keys: &[&str], token: Option<&str>, truncated: Option<bool>) -> ListingPage {
    ListingPage {
        keys: strings(keys),
        next_token: token.map(|t| t.to_string()),
        is_truncated: truncated,
    }
}

#[test]
fn missing_is_source_minus_dest() {
    let a = strings(&["x", "y", "z"]);
    let b = strings(&["y", "w"]);
    assert_eq!(sorted(find_missing_items(&a, &b)), strings(&["x", "z"]));
}

#[test]
fn missing_of_itself_is_empty() {
    let a = strings(&["x", "dir/y"]);
    assert!(find_missing_items(&a, &a).is_empty());
}

#[test]
fn missing_against_empty_dest_is_all_of_source() {
    let a = strings(&["x", "dir/y"]);
    assert_eq!(sorted(find_missing_items(&a, &Vec::new())), strings(&["dir/y", "x"]));
}

#[test]
fn missing_of_empty_source_is_empty() {
    let b = strings(&["x"]);
    assert!(find_missing_items(&Vec::new(), &b).is_empty());
}

#[test]
fn missing_drops_repeated_keys() {
    let a = strings(&["x", "x", "y", "x"]);
    let b = strings(&["y"]);
    assert_eq!(find_missing_items(&a, &b), strings(&["x"]));
}

#[test]
fn missing_compares_keys_exactly() {
    let a = strings(&["A.txt", "a.txt", "a.txt "]);
    let b = strings(&["a.txt"]);
    assert_eq!(sorted(find_missing_items(&a, &b)), strings(&["A.txt", "a.txt "]));
}

#[test]
fn listing_single_final_page() {
    let r = list_from_pages(vec![page(&["a", "b"], None, Some(false))]);
    assert_eq!(r.keys, strings(&["a", "b"]));
    assert_eq!(r.pages_read, 1);
    assert!(r.complete);
}

#[test]
fn listing_follows_token_chain_to_the_end() {
    let pages = vec![
        page(&["a", "b"], Some("t1"), Some(true)),
        page(&["c"], Some("t2"), Some(true)),
        page(&["d", "e"], None, Some(false)),
        page(&["never"], None, None),
    ];
    let r = list_from_pages(pages);
    assert_eq!(r.keys, strings(&["a", "b", "c", "d", "e"]));
    assert_eq!(r.pages_read, 3);
    assert!(r.complete);
}

#[test]
fn listing_page_without_token_ends_even_if_truncated() {
    let pages = vec![page(&["a"], None, Some(true)), page(&["b"], None, None)];
    let r = list_from_pages(pages);
    assert_eq!(r.keys, strings(&["a"]));
    assert_eq!(r.pages_read, 1);
    assert!(r.complete);
}

#[test]
fn listing_not_truncated_flag_ends_despite_token() {
    let pages = vec![page(&["a"], Some("t"), Some(false)), page(&["b"], None, None)];
    let r = list_from_pages(pages);
    assert_eq!(r.keys, strings(&["a"]));
    assert_eq!(r.pages_read, 1);
}

#[test]
fn listing_runs_out_of_pages() {
    let pages = vec![page(&["a"], Some("t"), Some(true))];
    let r = list_from_pages(pages);
    assert_eq!(r.keys, strings(&["a"]));
    assert_eq!(r.pages_read, 1);
    assert!(!r.complete);
    let empty = list_from_pages(Vec::new());
    assert!(empty.keys.is_empty());
    assert_eq!(empty.pages_read, 0);
    assert!(!empty.complete);
}

#[test]
fn lister_threads_tokens_in_sequence() {
    let mut l = Lister::new();
    assert_eq!(l.next_request(), Some(None));
    l.accept_page(page(&["a"], Some("t1"), Some(true)));
    assert_eq!(l.next_request(), Some(Some("t1".to_string())));
    l.accept_page(page(&[], Some("t2"), Some(true)));
    assert_eq!(l.next_request(), Some(Some("t2".to_string())));
    l.accept_page(page(&["b"], None, Some(false)));
    assert!(l.is_finished());
    assert_eq!(l.next_request(), None);
    assert_eq!(l.into_keys(), strings(&["a", "b"]));
}

#[test]
fn scheduler_steps_under_one_permit() {
    let mut s = Scheduler::new(2, 1);
    assert_eq!(s.next_action(), Action::Start(0));
    assert_eq!(s.next_action(), Action::Wait);
    assert_eq!(s.in_flight_now(), 1);
    s.complete(0, false);
    assert_eq!(s.state_of(0), ItemState::Failed);
    assert_eq!(s.next_action(), Action::Start(1));
    s.complete(1, true);
    assert_eq!(s.state_of(1), ItemState::Succeeded);
    assert_eq!(s.next_action(), Action::Finished);
    assert_eq!(s.in_flight_now(), 0);
}

#[test]
fn scheduler_admits_up_to_the_limit() {
    let mut s = Scheduler::new(5, 3);
    assert_eq!(s.next_action(), Action::Start(0));
    assert_eq!(s.next_action(), Action::Start(1));
    assert_eq!(s.next_action(), Action::Start(2));
    assert_eq!(s.next_action(), Action::Wait);
    assert_eq!(s.in_flight_now(), 3);
    s.complete(1, true);
    assert_eq!(s.next_action(), Action::Start(3));
    assert_eq!(s.state_of(4), ItemState::Pending);
    assert_eq!(s.len(), 5);
}

#[test]
fn run_all_never_exceeds_the_limit() {
    let items: Vec<usize> = (0..10).collect();
    let active = Cell::new(0usize);
    let worst = Cell::new(0usize);
    let r = run_all(&items, 3, &|_i: &usize| -> Result<(), ()> {
        active.set(active.get() + 1);
        worst.set(worst.get().max(active.get()));
        active.set(active.get() - 1);
        Ok(())
    });
    assert_eq!(r.started, 10);
    assert_eq!(r.peak_in_flight, 3);
    assert!(r.outcomes.iter().all(|o| *o == Some(Ok(()))));
}

#[test]
fn run_all_with_limit_one_is_sequential() {
    let items = strings(&["a", "b", "c"]);
    let order = RefCell::new(Vec::new());
    let r = run_all(&items, 1, &|k: &String| -> Result<(), ()> {
        order.borrow_mut().push(k.clone());
        Ok(())
    });
    assert_eq!(r.peak_in_flight, 1);
    assert_eq!(*order.borrow(), items);
}

#[test]
fn run_all_isolates_failures() {
    let items: Vec<u32> = (0..7).collect();
    let calls = RefCell::new(Vec::new());
    let r = run_all(&items, 2, &|i: &u32| -> Result<(), TransferError> {
        calls.borrow_mut().push(*i);
        if i % 3 == 0 {
            Err(TransferError::Fetch)
        } else {
            Ok(())
        }
    });
    let mut seen = calls.borrow().clone();
    seen.sort();
    assert_eq!(seen, items);
    for (i, o) in r.outcomes.iter().enumerate() {
        let expected = if i % 3 == 0 { Err(TransferError::Fetch) } else { Ok(()) };
        assert_eq!(*o, Some(expected));
    }
}

#[test]
fn run_all_on_no_items_schedules_nothing() {
    let items: Vec<String> = Vec::new();
    let calls = Cell::new(0u32);
    let r = run_all(&items, 30, &|_k: &String| -> Result<(), ()> {
        calls.set(calls.get() + 1);
        Ok(())
    });
    assert_eq!(calls.get(), 0);
    assert_eq!(r.started, 0);
    assert_eq!(r.peak_in_flight, 0);
    assert!(r.outcomes.is_empty());
    let mut s = Scheduler::new(0, 30);
    assert_eq!(s.next_action(), Action::Finished);
}

#[test]
fn download_path_joins_segments() {
    assert_eq!(download_path("staging", "bkt", "dir/b.txt"), "staging/bkt/dir/b.txt");
    assert_eq!(staging_dir("staging", "bkt"), "staging/bkt");
}

#[test]
fn staged_path_walks_back_to_its_key() {
    for key in ["a.txt", "dir/b.txt", "x/y/z"] {
        let p = download_path("root", "bkt", key);
        assert_eq!(relative_key(&staging_dir("root", "bkt"), &p), Some(key.to_string()));
    }
}

#[test]
fn relative_key_refuses_paths_outside_dir() {
    assert_eq!(relative_key("root/bkt", "root/other/a"), None);
    assert_eq!(relative_key("root/bkt", "root/bktx/a"), None);
    assert_eq!(relative_key("root/bkt", "root/bkt/"), None);
    assert_eq!(relative_key("root/bkt", "root"), None);
}

#[test]
fn safe_keys() {
    assert!(is_safe_key("a.txt"));
    assert!(is_safe_key("dir/b.txt"));
    assert!(is_safe_key(".hidden/..x/a..b"));
    assert!(!is_safe_key(""));
    assert!(!is_safe_key("/etc/passwd"));
    assert!(!is_safe_key("../up"));
    assert!(!is_safe_key("a/../../b"));
    assert!(!is_safe_key("a/./b"));
    assert!(!is_safe_key("a//b"));
    assert!(!is_safe_key("dir/"));
    assert!(!is_safe_key(".."));
}

#[test]
fn parent_dir_cuts_at_last_separator() {
    assert_eq!(parent_dir("s/b/dir/b.txt"), Some("s/b/dir".to_string()));
    assert_eq!(parent_dir("file"), None);
}

#[test]
fn plan_download_refuses_escaping_keys() {
    assert!(matches!(plan_download("s", "b", "../x"), Err(TransferError::UnsafeKey)));
    let p = plan_download("s", "b", "dir/b.txt").ok().unwrap();
    assert_eq!(p.path, "s/b/dir/b.txt");
    assert_eq!(p.parent, Some("s/b/dir".to_string()));
}

#[test]
fn plan_uploads_keys_files_by_relative_path() {
    let files = strings(&["s/b/a.txt", "s/b/dir/b.txt"]);
    let items = plan_uploads("s/b", &files).ok().unwrap();
    assert_eq!(items.len(), 2);
    assert_eq!(items[0].key, "a.txt");
    assert_eq!(items[1].key, "dir/b.txt");
    assert_eq!(items[1].path, "s/b/dir/b.txt");
    let bad = strings(&["s/b/a.txt", "elsewhere/c", "s/x"]);
    assert_eq!(plan_uploads("s/b", &bad).err(), Some(OutsideStaging { index: 1 }));
}

#[test]
fn run_mode_from_settings() {
    assert_eq!(choose_mode(false, true, true), RunMode::DownloadAll);
    assert_eq!(choose_mode(true, true, true), RunMode::Sync);
    assert_eq!(choose_mode(true, false, true), RunMode::SkipUpload);
    assert_eq!(choose_mode(true, true, false), RunMode::SkipUpload);
}

#[test]
fn region_prefers_the_explicit_one() {
    assert_eq!(select_region(Some("eu-west-1".to_string()), "us-east-1".to_string()), "eu-west-1");
    assert_eq!(select_region(None, "us-east-1".to_string()), "us-east-1");
}

#[test]
fn end_to_end_copies_only_the_missing_key() {
    let source = list_from_pages(vec![page(&["a.txt", "dir/b.txt"], None, Some(false))]).keys;
    let dest = list_from_pages(vec![page(&["a.txt"], None, None)]).keys;
    let missing = find_missing_items(&source, &dest);
    assert_eq!(missing, strings(&["dir/b.txt"]));

    let remote: BTreeMap<String, Vec<u8>> =
        [("a.txt".to_string(), b"A".to_vec()), ("dir/b.txt".to_string(), b"B content".to_vec())]
            .into_iter()
            .collect();
    let disk = RefCell::new(BTreeMap::<String, Vec<u8>>::new());
    let down = run_all(&missing, 30, &|key: &String| -> Result<(), TransferError> {
        let plan = plan_download("staging", "src-bucket", key)?;
        let body = remote.get(key).ok_or(TransferError::Fetch)?;
        disk.borrow_mut().insert(plan.path, body.clone());
        Ok(())
    });
    assert!(down.outcomes.iter().all(|o| *o == Some(Ok(()))));
    assert_eq!(
        disk.borrow().get("staging/src-bucket/dir/b.txt"),
        Some(&b"B content".to_vec())
    );

    let files: Vec<String> = disk.borrow().keys().cloned().collect();
    let uploads = plan_uploads(&staging_dir("staging", "src-bucket"), &files).ok().unwrap();
    let puts = RefCell::new(Vec::new());
    let up = run_all(&uploads, 30, &|item| -> Result<(), TransferError> {
        let data = disk.borrow().get(&item.path).cloned().ok_or(TransferError::Read)?;
        puts.borrow_mut().push((item.key.clone(), data));
        Ok(())
    });
    assert_eq!(up.started, 1);
    assert_eq!(*puts.borrow(), vec![("dir/b.txt".to_string(), b"B content".to_vec())]);
}
