//! Reading a plan rather than producing one.
//!
//! A plan is a derived artifact that gets stored and read by people, which is only
//! worth anything if a person can ask it what changed since the last one.

use vstd::prelude::*;

use crate::sorted_map::{keys_sorted, lemma_text_lt_transitive, text_lt, TextMap};
use crate::sql_text::strings_view;
use crate::text::str_eq;

verus! {

/// The last position among the first `n` URLs that holds `url`, or `-1`.
pub open spec fn last_at(urls: Seq<Seq<char>>, url: Seq<char>, n: int) -> int
    decreases n,
{
    if n <= 0 {
        -1
    } else if urls[n - 1] == url {
        n - 1
    } else {
        last_at(urls, url, n - 1)
    }
}

/// Where a URL is in a plan: its last position, or `-1`.
pub open spec fn position(urls: Seq<Seq<char>>, url: Seq<char>) -> int {
    last_at(urls, url, urls.len() as int)
}

/// Where `url` is first found in a plan's URLs, if it is there at all: what
/// a reader asking about one URL is pointed to.
pub fn first_position(urls: &Vec<String>, url: &str) -> (res: Option<usize>)
    ensures
        match res {
            Some(i) => {
                &&& i < urls@.len()
                &&& urls@[i as int]@ == url@
                &&& forall|j: int| 0 <= j < i ==> (#[trigger] urls@[j])@ != url@
            },
            None => forall|j: int| 0 <= j < urls@.len() ==> (#[trigger] urls@[j])@ != url@,
        },
{
    let mut i: usize = 0;
    while i < urls.len()
        invariant
            i <= urls@.len(),
            forall|j: int| 0 <= j < i ==> (#[trigger] urls@[j])@ != url@,
        decreases urls.len() - i,
    {
        if str_eq(urls[i].as_str(), url) {
            return Some(i);
        }
        i = i + 1;
    }
    None
}

/// Texts in strictly increasing order.
pub open spec fn strictly_sorted(texts: Seq<Seq<char>>) -> bool {
    forall|a: int, b: int| 0 <= a < b < texts.len() ==> text_lt(#[trigger] texts[a], #[trigger] texts[b])
}

/// What moved between two plans, by URL.
#[derive(Debug)]
pub struct Changes {
    /// In the later plan only, in URL order.
    pub added: Vec<String>,
    /// In the earlier plan only, in URL order.
    pub removed: Vec<String>,
    /// Same URL, different position: `(url, before, after)`, in URL order.
    pub moved: Vec<(String, usize, usize)>,
}

/// The URLs of a moved entry.
pub open spec fn moved_urls(moved: Seq<(String, usize, usize)>) -> Seq<Seq<char>> {
    moved.map_values(|m: (String, usize, usize)| m.0@)
}

/// Each URL, at the last position it is at.
fn index(urls: &Vec<String>) -> (res: TextMap<usize>)
    ensures
        forall|u: Seq<char>|
            #![trigger res@.contains_key(u)]
            res@.contains_key(u) == (position(strings_view(urls@), u) >= 0),
        forall|u: Seq<char>|
            #[trigger] res@.contains_key(u) ==> res@[u] == position(strings_view(urls@), u),
{
    let ghost texts = strings_view(urls@);
    let mut res: TextMap<usize> = TextMap::new();
    let mut i: usize = 0;
    while i < urls.len()
        invariant
            i <= urls@.len(),
            texts == strings_view(urls@),
            forall|u: Seq<char>|
                #![trigger res@.contains_key(u)]
                res@.contains_key(u) == (last_at(texts, u, i as int) >= 0),
            forall|u: Seq<char>|
                #[trigger] res@.contains_key(u) ==> res@[u] == last_at(texts, u, i as int),
        decreases urls.len() - i,
    {
        let ghost u_i = urls@[i as int]@;
        res.insert(urls[i].clone(), i);
        i = i + 1;
        proof {
            assert(texts[i - 1] == u_i);
            assert forall|u: Seq<char>| u != u_i implies #[trigger] last_at(texts, u, i as int)
                == last_at(texts, u, i - 1) by {}
            assert forall|u: Seq<char>| #[trigger] res@.contains_key(u) == (last_at(
                texts,
                u,
                i as int,
            ) >= 0) by {
                if u != u_i {
                    assert(last_at(texts, u, i as int) == last_at(texts, u, i - 1));
                }
            }
            assert forall|u: Seq<char>| #[trigger] res@.contains_key(u) implies res@[u] == last_at(
                texts,
                u,
                i as int,
            ) by {
                if u != u_i {
                    assert(last_at(texts, u, i as int) == last_at(texts, u, i - 1));
                }
            }
        }
    }
    res
}

proof fn lemma_last_at(urls: Seq<Seq<char>>, url: Seq<char>, n: int)
    requires
        0 <= n <= urls.len(),
    ensures
        -1 <= last_at(urls, url, n) < n,
        last_at(urls, url, n) >= 0 ==> urls[last_at(urls, url, n)] == url,
    decreases n,
{
    if n > 0 {
        lemma_last_at(urls, url, n - 1);
    }
}

/// The keys of `a` that are not keys of `b`, in order.
fn only_in(a: &TextMap<usize>, b: &TextMap<usize>) -> (res: Vec<String>)
    ensures
        strictly_sorted(strings_view(res@)),
        forall|u: Seq<char>|
            #[trigger] strings_view(res@).contains(u) == (a@.contains_key(u) && !b@.contains_key(u)),
{
    let n = a.len();
    let ghost keys = a.keys();
    let mut res: Vec<String> = Vec::new();
    let mut r: usize = 0;
    while r < n
        invariant
            r <= n,
            n == keys.len(),
            keys == a.keys(),
            keys_sorted::<String>(keys),
            strictly_sorted(strings_view(res@)),
            r < n ==> forall|x: int|
                0 <= x < res@.len() ==> text_lt(#[trigger] strings_view(res@)[x], keys[r as int]),
            forall|u: Seq<char>|
                #[trigger] strings_view(res@).contains(u) == (exists|q: int|
                    0 <= q < r && keys[q] == u && !b@.contains_key(u)),
        decreases n - r,
    {
        let key = a.key_at(r);
        let ghost before = strings_view(res@);
        let missing = match b.get(key) {
            Some(_) => false,
            None => true,
        };
        if missing {
            res.push(key.clone());
        }
        r = r + 1;
        proof {
            let now = strings_view(res@);
            if missing {
                assert(now =~= before.push(keys[r - 1]));
            } else {
                assert(now =~= before);
            }
            if r < n {
                assert(text_lt(keys[r - 1], keys[r as int]));
                assert forall|x: int| 0 <= x < now.len() implies text_lt(
                    #[trigger] now[x],
                    keys[r as int],
                ) by {
                    if x < before.len() {
                        lemma_text_lt_transitive(before[x], keys[r - 1], keys[r as int]);
                    }
                }
            }
            assert forall|u: Seq<char>| #[trigger] now.contains(u) == (exists|q: int|
                0 <= q < r && keys[q] == u && !b@.contains_key(u)) by {
                if now.contains(u) && !before.contains(u) {
                    assert(keys[r - 1] == u);
                }
                if exists|q: int| 0 <= q < r && keys[q] == u && !b@.contains_key(u) {
                    let q = choose|q: int| 0 <= q < r && keys[q] == u && !b@.contains_key(u);
                    if q == r - 1 {
                        assert(now[now.len() - 1] == u);
                    } else {
                        assert(before.contains(u));
                        let x = before.index_of(u);
                        assert(now[x] == u);
                    }
                }
            }
        }
    }
    proof {
        assert forall|u: Seq<char>| #[trigger] strings_view(res@).contains(u) == (a@.contains_key(u)
            && !b@.contains_key(u)) by {
            if a@.contains_key(u) && !b@.contains_key(u) {
                let q = keys.index_of(u);
                assert(keys[q] == u);
            }
        }
    }
    res
}

/// The keys of both with different values, with both values, in order.
fn moved_between(old: &TextMap<usize>, new: &TextMap<usize>) -> (res: Vec<(String, usize, usize)>)
    ensures
        strictly_sorted(moved_urls(res@)),
        forall|q: int|
            0 <= q < res@.len() ==> {
                let (u, was, now) = #[trigger] res@[q];
                &&& old@.contains_key(u@) && new@.contains_key(u@)
                &&& was == old@[u@] && now == new@[u@]
                &&& was != now
            },
        forall|u: Seq<char>|
            old@.contains_key(u) && new@.contains_key(u) && old@[u] != new@[u] ==> #[trigger] moved_urls(
                res@,
            ).contains(u),
{
    let n = old.len();
    let ghost keys = old.keys();
    let ghost values = old.values();
    let mut res: Vec<(String, usize, usize)> = Vec::new();
    let mut r: usize = 0;
    while r < n
        invariant
            r <= n,
            n == keys.len(),
            n == values.len(),
            keys == old.keys(),
            values == old.values(),
            keys_sorted::<String>(keys),
            strictly_sorted(moved_urls(res@)),
            r < n ==> forall|x: int|
                0 <= x < res@.len() ==> text_lt(#[trigger] moved_urls(res@)[x], keys[r as int]),
            forall|q: int|
                0 <= q < res@.len() ==> {
                    let (u, was, now) = #[trigger] res@[q];
                    &&& old@.contains_key(u@) && new@.contains_key(u@)
                    &&& was == old@[u@] && now == new@[u@]
                    &&& was != now
                },
            forall|q: int|
                0 <= q < r && new@.contains_key(#[trigger] keys[q]) && old@[keys[q]]
                    != new@[keys[q]] ==> moved_urls(res@).contains(keys[q]),
        decreases n - r,
    {
        let key = old.key_at(r);
        let was = *old.value_at(r);
        proof {
            old.lemma_entry(r as int);
        }
        let ghost before = moved_urls(res@);
        let ghost before_entries = res@;
        let mut pushed = false;
        if let Some(now) = new.get(key) {
            if was != *now {
                res.push((key.clone(), was, *now));
                pushed = true;
            }
        }
        r = r + 1;
        proof {
            let after = moved_urls(res@);
            if pushed {
                assert(after =~= before.push(keys[r - 1]));
                assert(res@ =~= before_entries.push(res@[res@.len() - 1]));
            } else {
                assert(after =~= before);
            }
            if r < n {
                assert(text_lt(keys[r - 1], keys[r as int]));
                assert forall|x: int| 0 <= x < after.len() implies text_lt(
                    #[trigger] after[x],
                    keys[r as int],
                ) by {
                    if x < before.len() {
                        lemma_text_lt_transitive(before[x], keys[r - 1], keys[r as int]);
                    }
                }
            }
            assert forall|q: int|
                0 <= q < r && new@.contains_key(#[trigger] keys[q]) && old@[keys[q]]
                    != new@[keys[q]] implies after.contains(keys[q]) by {
                if q == r - 1 {
                    assert(after[after.len() - 1] == keys[q]);
                } else {
                    let x = before.index_of(keys[q]);
                    assert(after[x] == keys[q]);
                }
            }
        }
    }
    proof {
        assert forall|u: Seq<char>|
            old@.contains_key(u) && new@.contains_key(u) && old@[u] != new@[u] implies #[trigger] moved_urls(
            res@,
        ).contains(u) by {
            let q = keys.index_of(u);
            assert(keys[q] == u);
        }
    }
    res
}

/// What moved between two plans, given the URLs of each in order.
///
/// A URL is where it last occurs: a plan names each URL once, and where one
/// names it twice the later entry is the one an executor reaches last.
pub fn changes(before: &Vec<String>, after: &Vec<String>) -> (res: Changes)
    ensures
        strictly_sorted(strings_view(res.added@)),
        forall|u: Seq<char>|
            #[trigger] strings_view(res.added@).contains(u) == (position(strings_view(after@), u)
                >= 0 && position(strings_view(before@), u) < 0),
        strictly_sorted(strings_view(res.removed@)),
        forall|u: Seq<char>|
            #[trigger] strings_view(res.removed@).contains(u) == (position(strings_view(before@), u)
                >= 0 && position(strings_view(after@), u) < 0),
        strictly_sorted(moved_urls(res.moved@)),
        forall|q: int|
            0 <= q < res.moved@.len() ==> {
                let (u, was, now) = #[trigger] res.moved@[q];
                &&& was == position(strings_view(before@), u@)
                &&& now == position(strings_view(after@), u@)
                &&& was >= 0 && now >= 0 && was != now
            },
        forall|u: Seq<char>|
            position(strings_view(before@), u) >= 0 && position(strings_view(after@), u) >= 0
                && position(strings_view(before@), u) != position(strings_view(after@), u)
                ==> #[trigger] moved_urls(res.moved@).contains(u),
        strings_view(before@) == strings_view(after@) ==> res.added@.len() == 0
            && res.removed@.len() == 0 && res.moved@.len() == 0,
{
    let old = index(before);
    let new = index(after);
    let added = only_in(&new, &old);
    let removed = only_in(&old, &new);
    let moved = moved_between(&old, &new);
    assert(strings_view(before@) == strings_view(after@) ==> added@.len() == 0
        && removed@.len() == 0 && moved@.len() == 0) by {
        if strings_view(before@) == strings_view(after@) {
            if added@.len() > 0 {
                assert(strings_view(added@).contains(strings_view(added@)[0]));
            }
            if removed@.len() > 0 {
                assert(strings_view(removed@).contains(strings_view(removed@)[0]));
            }
            if moved@.len() > 0 {
                let m = moved@[0];
                assert(moved_urls(moved@)[0] == m.0@);
            }
        }
    }
    assert forall|u: Seq<char>|
        position(strings_view(before@), u) >= 0 && position(strings_view(after@), u) >= 0
            && position(strings_view(before@), u) != position(
            strings_view(after@),
            u,
        ) implies #[trigger] moved_urls(moved@).contains(u) by {
        assert(old@.contains_key(u));
        assert(new@.contains_key(u));
    }
    Changes { added, removed, moved }
}

} // verus!
