use vstd::prelude::*;

verus! {

/// The set of keys that a listing holds; repeats collapse.
pub open spec fn key_set(keys: Seq<String>) -> Set<Seq<char>> {
    Set::new(|k: Seq<char>| exists|i: int| 0 <= i < keys.len() && keys[i]@ == k)
}

/// The keys of `source` that `dest` lacks.
pub open spec fn missing_set(source: Set<Seq<char>>, dest: Set<Seq<char>>) -> Set<Seq<char>> {
    source.difference(dest)
}

/// No key occurs twice.
pub open spec fn distinct_keys(keys: Seq<String>) -> bool {
    forall|i: int, j: int| 0 <= i < j < keys.len() ==> keys[i]@ != keys[j]@
}

proof fn lemma_key_set_push(keys: Seq<String>, k: String)
    ensures
        key_set(keys.push(k)) == key_set(keys).insert(k@),
{
    let pushed = keys.push(k);
    assert forall|x: Seq<char>| key_set(pushed).contains(x) implies key_set(keys).insert(k@).contains(x) by {
        let i = choose|i: int| 0 <= i < pushed.len() && pushed[i]@ == x;
        if i < keys.len() {
            assert(keys[i]@ == x);
        }
    }
    assert forall|x: Seq<char>| key_set(keys).insert(k@).contains(x) implies key_set(pushed).contains(x) by {
        if x == k@ {
            assert(pushed[keys.len() as int]@ == x);
        } else {
            let i = choose|i: int| 0 <= i < keys.len() && keys[i]@ == x;
            assert(pushed[i]@ == x);
        }
    }
    assert(key_set(pushed) =~= key_set(keys).insert(k@));
}

fn contains_key(keys: &Vec<String>, key: &String) -> (r: bool)
    ensures
        r == key_set(keys@).contains(key@),
{
    let mut i: usize = 0;
    while i < keys.len()
        invariant
            0 <= i <= keys.len(),
            forall|j: int| 0 <= j < i ==> keys@[j]@ != key@,
        decreases keys.len() - i,
    {
        if keys[i] == *key {
            assert(keys@[i as int]@ == key@);
            return true;
        }
        i += 1;
    }
    false
}

/// Computes the keys of `source` absent from `dest`, each once. Presence is
/// decided by exact key equality alone.
pub fn find_missing_items(source: &Vec<String>, dest: &Vec<String>) -> (r: Vec<String>)
    ensures
        key_set(r@) == missing_set(key_set(source@), key_set(dest@)),
        distinct_keys(r@),
{
    let mut r: Vec<String> = Vec::new();
    let mut i: usize = 0;
    assert(key_set(r@) =~= missing_set(key_set(source@.subrange(0, 0)), key_set(dest@)));
    while i < source.len()
        invariant
            i <= source.len(),
            distinct_keys(r@),
            key_set(r@) == missing_set(key_set(source@.subrange(0, i as int)), key_set(dest@)),
        decreases source.len() - i,
    {
        let k = &source[i];
        let seen = contains_key(dest, k) || contains_key(&r, k);
        let ghost before = r@;
        if !seen {
            r.push(k.clone());
            proof {
                lemma_key_set_push(before, *k);
            }
        }
        proof {
            let prefix = source@.subrange(0, i as int);
            assert(source@.subrange(0, i + 1) == prefix.push(*k));
            lemma_key_set_push(prefix, *k);
            assert(key_set(r@) =~= missing_set(key_set(source@.subrange(0, i + 1)), key_set(dest@)));
        }
        i += 1;
    }
    assert(source@.subrange(0, source@.len() as int) == source@);
    r
}

/// The missing set is the set difference; a listing misses nothing of itself;
/// against an empty destination everything is missing; an empty source misses
/// nothing.
pub proof fn lemma_missing_laws(a: Set<Seq<char>>, b: Set<Seq<char>>)
    ensures
        forall|k: Seq<char>| #[trigger] missing_set(a, b).contains(k) <==> (a.contains(k) && !b.contains(k)),
        missing_set(a, a) == Set::<Seq<char>>::empty(),
        missing_set(a, Set::<Seq<char>>::empty()) == a,
        missing_set(Set::<Seq<char>>::empty(), b) == Set::<Seq<char>>::empty(),
{
    assert(missing_set(a, a) =~= Set::<Seq<char>>::empty());
    assert(missing_set(a, Set::<Seq<char>>::empty()) =~= a);
    assert(missing_set(Set::<Seq<char>>::empty(), b) =~= Set::<Seq<char>>::empty());
}

} // verus!
