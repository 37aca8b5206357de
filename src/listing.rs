use vstd::prelude::*;

verus! {

/// One response of a paginated listing: its keys, in order, and what it says
/// of the pages after it.
pub struct ListingPage {
    pub keys: Vec<String>,
    pub next_token: Option<String>,
    pub is_truncated: Option<bool>,
}

impl ListingPage {
    /// Another page follows only when this one says it is truncated and hands a
    /// token to ask for it with. A page without a token always ends the listing.
    pub open spec fn continues(&self) -> bool {
        self.is_truncated == Some(true) && self.next_token.is_some()
    }

    pub fn has_more(&self) -> (r: bool)
        ensures
            r == self.continues(),
    {
        match self.is_truncated {
            Some(t) => t && self.next_token.is_some(),
            None => false,
        }
    }
}

/// The keys of `pages`, page after page, with the page boundaries dropped.
pub open spec fn keys_of_pages(pages: Seq<ListingPage>) -> Seq<String>
    decreases pages.len(),
{
    if pages.len() == 0 {
        Seq::empty()
    } else {
        keys_of_pages(pages.drop_last()) + pages.last().keys@
    }
}

/// Every page but the last one asks for a successor.
pub open spec fn chained(pages: Seq<ListingPage>) -> bool {
    forall|i: int| 0 <= i < pages.len() - 1 ==> #[trigger] pages[i].continues()
}

/// The pages a listing reads from `pages` served in order: up to and including
/// the first that ends it, or all of them when none does.
pub open spec fn pages_read(pages: Seq<ListingPage>) -> int
    decreases pages.len(),
{
    if pages.len() == 0 {
        0
    } else if !pages[0].continues() {
        1
    } else {
        1 + pages_read(pages.drop_first())
    }
}

/// A page that hands no continuation token ends the listing, whatever its
/// truncation flag says.
pub proof fn lemma_tokenless_page_ends(page: ListingPage)
    requires
        page.next_token is None,
    ensures
        !page.continues(),
{
}

/// Clones a continuation token.
fn copy_token(t: &Option<String>) -> (r: Option<String>)
    ensures
        r == *t,
{
    match t {
        Some(s) => Some(s.clone()),
        None => None,
    }
}

/// The state of one listing of a bucket. Requests go out strictly one after
/// another: the next one carries the token of the page before it.
pub struct Lister {
    keys: Vec<String>,
    token: Option<String>,
    finished: bool,
    pages: Ghost<Seq<ListingPage>>,
}

impl Lister {
    /// The keys gathered so far.
    pub closed spec fn keys(&self) -> Seq<String> {
        self.keys@
    }

    /// The pages accepted so far.
    pub closed spec fn pages(&self) -> Seq<ListingPage> {
        self.pages@
    }

    /// Whether a page has ended the listing.
    pub closed spec fn finished(&self) -> bool {
        self.finished
    }

    /// The token that the next request carries.
    pub closed spec fn token(&self) -> Option<String> {
        self.token
    }

    pub closed spec fn wf(&self) -> bool {
        &&& self.keys@ == keys_of_pages(self.pages@)
        &&& chained(self.pages@)
        &&& self.finished == (self.pages@.len() > 0 && !self.pages@.last().continues())
        &&& self.token == if self.pages@.len() == 0 {
            None
        } else {
            self.pages@.last().next_token
        }
    }

    /// A listing that has read nothing; its first request carries no token.
    pub fn new() -> (r: Lister)
        ensures
            r.wf(),
            r.keys() == Seq::<String>::empty(),
            r.pages() == Seq::<ListingPage>::empty(),
            !r.finished(),
            r.token() == None::<String>,
    {
        Lister { keys: Vec::new(), token: None, finished: false, pages: Ghost(Seq::empty()) }
    }

    pub fn is_finished(&self) -> (r: bool)
        ensures
            r == self.finished(),
    {
        self.finished
    }

    /// The request to make next: `None` once the listing has ended, else the
    /// continuation token to send (none for the first page).
    pub fn next_request(&self) -> (r: Option<Option<String>>)
        ensures
            self.finished() ==> r == None::<Option<String>>,
            !self.finished() ==> r == Some(self.token()),
    {
        if self.finished {
            None
        } else {
            Some(copy_token(&self.token))
        }
    }

    /// Takes in the page answered to the last request: its keys join the
    /// listing, and it either ends the listing or gives the next token.
    pub fn accept_page(&mut self, page: ListingPage)
        requires
            old(self).wf(),
            !old(self).finished(),
        ensures
            final(self).wf(),
            final(self).keys() == old(self).keys() + page.keys@,
            final(self).pages() == old(self).pages().push(page),
            final(self).finished() == !page.continues(),
            final(self).token() == page.next_token,
    {
        let ghost old_pages = self.pages@;
        let ghost page_keys = page.keys@;
        let ghost new_pages = old_pages.push(page);
        let more = page.has_more();
        let ListingPage { keys, next_token, is_truncated: _ } = page;
        let mut i: usize = 0;
        let ghost start = self.keys@;
        while i < keys.len()
            invariant
                i <= keys.len(),
                keys@ == page_keys,
                self.keys@ == start + keys@.subrange(0, i as int),
            decreases keys.len() - i,
        {
            self.keys.push(keys[i].clone());
            assert(keys@.subrange(0, i + 1) == keys@.subrange(0, i as int).push(keys@[i as int]));
            i += 1;
        }
        assert(keys@.subrange(0, keys@.len() as int) == keys@);
        self.token = next_token;
        self.finished = !more;
        self.pages = Ghost(new_pages);
        assert(new_pages.drop_last() == old_pages);
        assert(new_pages.last() == page);
        assert(self.keys@ == keys_of_pages(new_pages));
        assert(chained(new_pages)) by {
            assert forall|j: int| 0 <= j < new_pages.len() - 1 implies #[trigger] new_pages[j].continues() by {
                if j < old_pages.len() - 1 {
                    assert(new_pages[j] == old_pages[j]);
                } else {
                    assert(new_pages[j] == old_pages.last());
                }
            }
        }
    }

    /// The keys gathered.
    pub fn into_keys(self) -> (r: Vec<String>)
        ensures
            r@ == self.keys(),
    {
        self.keys
    }
}

/// What a listing run over pages served in order gathered.
pub struct Collected {
    pub keys: Vec<String>,
    pub pages_read: usize,
    pub complete: bool,
}

proof fn lemma_pages_read_step(pages: Seq<ListingPage>, i: int)
    requires
        0 <= i < pages.len(),
        forall|j: int| 0 <= j < i ==> #[trigger] pages[j].continues(),
    ensures
        !pages[i].continues() ==> pages_read(pages) == i + 1,
        i == pages.len() - 1 && pages[i].continues() ==> pages_read(pages) == pages.len(),
    decreases i,
{
    if i > 0 {
        let rest = pages.drop_first();
        assert forall|j: int| 0 <= j < i - 1 implies #[trigger] rest[j].continues() by {
            assert(rest[j] == pages[j + 1]);
        }
        assert(rest[i - 1] == pages[i]);
        lemma_pages_read_step(rest, i - 1);
        assert(pages[0].continues());
    } else if pages.len() == 1 {
        assert(pages.drop_first().len() == 0);
        assert(pages_read(pages.drop_first()) == 0);
    }
}

/// Drives a `Lister` over `pages`, each served as the answer to the next
/// request. Reading stops at the first page that ends the listing, so it
/// always terminates, and the keys gathered are exactly those of the pages
/// read, in order. `complete` says whether a page ended the listing.
pub fn list_from_pages(pages: Vec<ListingPage>) -> (r: Collected)
    ensures
        r.pages_read == pages_read(pages@),
        r.keys@ == keys_of_pages(pages@.subrange(0, r.pages_read as int)),
        r.complete == (exists|i: int| 0 <= i < pages@.len() && !(#[trigger] pages@[i]).continues()),
        r.complete ==> !pages@[r.pages_read - 1].continues(),
        chained(pages@.subrange(0, r.pages_read as int)),
{
    let ghost all = pages@;
    let mut lister = Lister::new();
    let total = pages.len();
    let mut pages = pages;
    let mut n: usize = 0;
    while n < total && !lister.is_finished()
        invariant
            lister.wf(),
            total == all.len(),
            n <= all.len(),
            pages@.len() == all.len() - n,
            pages@ == all.subrange(n as int, all.len() as int),
            lister.pages() == all.subrange(0, n as int),
            lister.keys() == keys_of_pages(all.subrange(0, n as int)),
            n > 0 ==> lister.finished() == !all[n - 1].continues(),
            lister.finished() ==> n > 0,
            forall|j: int| 0 <= j < n - 1 ==> #[trigger] all[j].continues(),
        decreases all.len() - n,
    {
        let page = pages.remove(0);
        assert(page == all[n as int]);
        lister.accept_page(page);
        assert(all.subrange(0, n + 1) == all.subrange(0, n as int).push(all[n as int]));
        n += 1;
    }
    let complete = lister.is_finished();
    proof {
        if n > 0 {
            lemma_pages_read_step(all, n - 1);
        }
        if complete {
            assert(!all[n - 1].continues());
        } else {
            assert forall|i: int| 0 <= i < all.len() implies (#[trigger] all[i]).continues() by {
                if i < n - 1 {
                } else {
                    assert(i == n - 1);
                }
            }
        }
    }
    Collected { keys: lister.into_keys(), pages_read: n, complete }
}

} // verus!
