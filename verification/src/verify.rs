//! Asking whether a plan's URLs are URLs.
//!
//! The planner fills a template from a manifest and has no way to know the
//! template was right. When it is wrong the plan looks exactly like a correct
//! one, and every request in it answers 404. So a handful of the URLs a plan
//! actually contains are put to the origin: which handful is decided here, and
//! what an answer means.

use vstd::prelude::*;

use crate::sorted_map::TextMap;
use crate::sql_text::strings_view;

verus! {

/// What one sampled URL answered.
#[derive(Debug, Clone)]
pub struct Checked {
    pub url: String,
    pub service: String,
    /// The position in the plan, because the first entries are the ones a
    /// plan puts first for a reason.
    pub rank: usize,
    pub status: Option<u16>,
    pub error: Option<String>,
}

/// A status that says the URL cannot exist: a 4xx.
pub open spec fn says_wrong(status: Option<u16>) -> bool {
    status matches Some(s) && 400 <= s < 500
}

/// A status that says the URL is there.
pub open spec fn says_ok(status: Option<u16>) -> bool {
    status matches Some(s) && s < 400
}

impl Checked {
    /// Whether this is a URL that cannot exist, rather than an origin having
    /// a bad minute.
    ///
    /// A 4xx is the plan's fault: the template, the id, or the epoch produced
    /// somewhere that is not there. A 5xx or a timeout is the origin's, and an
    /// origin is allowed to have a bad minute without a pull request failing
    /// over it.
    pub fn is_wrong(&self) -> (res: bool)
        ensures
            res == says_wrong(self.status),
    {
        match self.status {
            Some(status) => 400 <= status && status < 500,
            None => false,
        }
    }

    /// Whether the URL answered as one that exists.
    pub fn ok(&self) -> (res: bool)
        ensures
            res == says_ok(self.status),
    {
        match self.status {
            Some(status) => status < 400,
            None => false,
        }
    }
}

/// No answer is both a wrong URL and a good one.
pub proof fn law_wrong_and_ok_exclude_each_other(status: Option<u16>)
    ensures
        !(says_wrong(status) && says_ok(status)),
{
}

/// How many of the first `n` entries belong to `service`.
pub open spec fn count_of(services: Seq<Seq<char>>, service: Seq<char>, n: int) -> nat
    decreases n,
{
    if n <= 0 {
        0
    } else {
        count_of(services, service, n - 1) + if services[n - 1] == service {
            1nat
        } else {
            0nat
        }
    }
}

/// Whether the entry at `rank` is asked about, when `size` are wanted of each
/// service.
///
/// The first of each service always, because a plan puts metadata first and a
/// metadata URL is built from a different template than the tiles. The rest
/// are spread evenly rather than taken from the top: every `stride`-th entry
/// of the service, `want` of them, where `want` is `size` (at least one, and
/// no more than the service has) and `stride` is the service's count divided
/// by `want`, rounded up.
pub open spec fn sampled(services: Seq<Seq<char>>, size: nat, rank: int) -> bool {
    let s = services[rank];
    let count = count_of(services, s, services.len() as int);
    let at_least_one = if size >= 1 {
        size
    } else {
        1
    };
    let want = if at_least_one <= count {
        at_least_one
    } else {
        count
    };
    let stride: int = (count + want - 1) / (want as int);
    let p: int = count_of(services, s, rank) as int;
    p % stride == 0 && p / stride < want
}

proof fn lemma_count_bounds(services: Seq<Seq<char>>, service: Seq<char>, a: int, b: int)
    requires
        0 <= a <= b <= services.len(),
    ensures
        count_of(services, service, a) <= count_of(services, service, b),
        count_of(services, service, b) <= b,
        a < b && services[a] == service ==> count_of(services, service, a) < count_of(
            services,
            service,
            b,
        ),
    decreases b - a,
{
    if a < b {
        lemma_count_bounds(services, service, a, b - 1);
        if services[a] == service && a < b - 1 {
            lemma_count_bounds(services, service, a + 1, b - 1);
        }
    } else {
        lemma_count_prefix(services, service, b);
    }
}

proof fn lemma_count_prefix(services: Seq<Seq<char>>, service: Seq<char>, n: int)
    requires
        0 <= n <= services.len(),
    ensures
        count_of(services, service, n) <= n,
    decreases n,
{
    if n > 0 {
        lemma_count_prefix(services, service, n - 1);
    }
}

proof fn lemma_stride(count: int, want: int)
    requires
        1 <= want <= count,
    ensures
        (count + want - 1) / want >= 1,
        (count + want - 1) / want <= count,
{
    assert((count + want - 1) / want >= 1) by (nonlinear_arith)
        requires
            1 <= want <= count,
    ;
    assert((count + want - 1) / want <= count) by (nonlinear_arith)
        requires
            1 <= want <= count,
    ;
}

/// How many of the first `k` entries of `service` are asked about.
pub open spec fn sampled_of(services: Seq<Seq<char>>, size: nat, service: Seq<char>, k: int) -> nat
    decreases k,
{
    if k <= 0 {
        0
    } else {
        sampled_of(services, size, service, k - 1) + if services[k - 1] == service && sampled(
            services,
            size,
            k - 1,
        ) {
            1nat
        } else {
            0nat
        }
    }
}

/// A service with `c` entries gives a sample of at least one and at most
/// `size` of them (one, if `size` is zero), and all of them when `size` is
/// no smaller than `c`. Exactly, it gives every `stride`-th entry from its
/// first, `stride` being `c` over `want` rounded up and `want` being `size`
/// within one and `c`, and no more than `want`: `min(want, c / stride rounded
/// up)` of them. A service that is not in the plan gives none.
pub proof fn law_how_many_of_a_service_are_asked_about(
    services: Seq<Seq<char>>,
    size: nat,
    service: Seq<char>,
)
    ensures
        ({
            let c = count_of(services, service, services.len() as int);
            let n = sampled_of(services, size, service, services.len() as int);
            let want: int = if size < 1 {
                1
            } else if size <= c {
                size as int
            } else {
                c as int
            };
            let stride: int = (c + want - 1) / want;
            &&& n <= if size >= 1 {
                size
            } else {
                1
            }
            &&& n <= c
            &&& c > 0 ==> n >= 1
            &&& c <= size ==> n == c
            &&& c > 0 ==> n == (if want <= (c + stride - 1) / stride {
                want
            } else {
                (c + stride - 1) / stride
            })
        }),
{
    let n = services.len() as int;
    let c = count_of(services, service, n);
    lemma_count_prefix(services, service, n);
    if c == 0 {
        lemma_none_sampled(services, size, service, n);
    } else {
        let want: int = if size < 1 {
            1
        } else if size <= c {
            size as int
        } else {
            c as int
        };
        lemma_stride(c as int, want);
        let stride: int = (c + want - 1) / want;
        lemma_sampled_of(services, size, service, n);
        assert((c + stride - 1) / stride >= 1) by (nonlinear_arith)
            requires
                stride >= 1,
                c >= 1,
        ;
        assert((c + stride - 1) / stride <= c) by (nonlinear_arith)
            requires
                stride >= 1,
                c >= 1,
        ;
        if c <= size {
            assert(want == c);
            let ci = c as int;
            assert((ci + ci - 1) / ci == 1) by (nonlinear_arith)
                requires
                    ci >= 1,
            ;
            assert((c + 1 - 1) / 1 == c);
        }
    }
}

/// Where a service has no entries, none of them is asked about.
proof fn lemma_none_sampled(services: Seq<Seq<char>>, size: nat, service: Seq<char>, k: int)
    requires
        0 <= k <= services.len(),
        count_of(services, service, k) == 0,
    ensures
        sampled_of(services, size, service, k) == 0,
    decreases k,
{
    if k > 0 {
        lemma_none_sampled(services, size, service, k - 1);
    }
}

/// Among the first `k` entries, those of `service` asked about are the
/// multiples of `stride` among their positions, up to `want` of them.
proof fn lemma_sampled_of(services: Seq<Seq<char>>, size: nat, service: Seq<char>, k: int)
    requires
        0 <= k <= services.len(),
        count_of(services, service, services.len() as int) > 0,
    ensures
        ({
            let c = count_of(services, service, services.len() as int);
            let want: int = if size < 1 {
                1
            } else if size <= c {
                size as int
            } else {
                c as int
            };
            let stride: int = (c + want - 1) / want;
            let p = count_of(services, service, k);
            sampled_of(services, size, service, k) == (if want <= (p + stride - 1) / stride {
                want
            } else {
                (p + stride - 1) / stride
            })
        }),
    decreases k,
{
    let n = services.len() as int;
    let c = count_of(services, service, n);
    let want: int = if size < 1 {
        1
    } else if size <= c {
        size as int
    } else {
        c as int
    };
    lemma_count_prefix(services, service, n);
    lemma_stride(c as int, want);
    let stride: int = (c + want - 1) / want;
    if k == 0 {
        assert((stride - 1) / stride == 0) by (nonlinear_arith)
            requires
                stride >= 1,
        ;
    } else {
        lemma_sampled_of(services, size, service, k - 1);
        let p = count_of(services, service, k - 1) as int;
        if services[k - 1] == service {
            lemma_count_bounds(services, service, k - 1, n);
            assert(sampled(services, size, k - 1) == (p % stride == 0 && p / stride < want));
            lemma_ceil_step(p, stride);
        }
    }
}

/// Rounding up a quotient: one more past a multiple of the divisor adds one.
proof fn lemma_ceil_step(p: int, d: int)
    requires
        p >= 0,
        d >= 1,
    ensures
        (p + 1 + d - 1) / d == (p + d - 1) / d + (if p % d == 0 {
            1int
        } else {
            0
        }),
        p % d == 0 ==> (p + d - 1) / d == p / d,
{
    let a = p / d;
    let b = p % d;
    vstd::arithmetic::div_mod::lemma_fundamental_div_mod(p, d);
    assert(p == a * d + b);
    assert(0 <= b < d);
    if b == 0 {
        vstd::arithmetic::div_mod::lemma_fundamental_div_mod_converse(p + d - 1, d, a, d - 1);
        assert(p + 1 + d - 1 == (a + 1) * d + 0) by (nonlinear_arith)
            requires
                p == a * d + b,
                b == 0,
        ;
        vstd::arithmetic::div_mod::lemma_fundamental_div_mod_converse(p + 1 + d - 1, d, a + 1, 0);
    } else {
        assert(p + d - 1 == (a + 1) * d + (b - 1)) by (nonlinear_arith)
            requires
                p == a * d + b,
        ;
        vstd::arithmetic::div_mod::lemma_fundamental_div_mod_converse(p + d - 1, d, a + 1, b - 1);
        assert(p + 1 + d - 1 == (a + 1) * d + b) by (nonlinear_arith)
            requires
                p == a * d + b,
        ;
        vstd::arithmetic::div_mod::lemma_fundamental_div_mod_converse(p + 1 + d - 1, d, a + 1, b);
    }
}

/// Per service, how many of the first `n` entries belong to it.
fn counts(services: &Vec<String>, n: usize) -> (res: TextMap<usize>)
    requires
        n <= services@.len(),
    ensures
        forall|s: Seq<char>|
            #![trigger res@.contains_key(s)]
            res@.contains_key(s) == (count_of(strings_view(services@), s, n as int) > 0),
        forall|s: Seq<char>|
            #[trigger] res@.contains_key(s) ==> res@[s] == count_of(
                strings_view(services@),
                s,
                n as int,
            ),
{
    let ghost names = strings_view(services@);
    let mut res: TextMap<usize> = TextMap::new();
    let mut i: usize = 0;
    while i < n
        invariant
            i <= n <= services@.len(),
            names == strings_view(services@),
            forall|s: Seq<char>|
                #![trigger res@.contains_key(s)]
                res@.contains_key(s) == (count_of(names, s, i as int) > 0),
            forall|s: Seq<char>|
                #[trigger] res@.contains_key(s) ==> res@[s] == count_of(names, s, i as int),
        decreases n - i,
    {
        let ghost name = names[i as int];
        proof {
            lemma_count_prefix(names, name, i as int);
        }
        let so_far = match res.get(&services[i]) {
            Some(c) => *c,
            None => 0,
        };
        res.insert(services[i].clone(), so_far + 1);
        i = i + 1;
        proof {
            assert(services@[i - 1]@ == name);
            assert forall|s: Seq<char>| s != name implies #[trigger] count_of(names, s, i as int)
                == count_of(names, s, i - 1) by {}
            assert forall|s: Seq<char>| #[trigger] res@.contains_key(s) == (count_of(
                names,
                s,
                i as int,
            ) > 0) by {
                if s != name {
                    assert(count_of(names, s, i as int) == count_of(names, s, i - 1));
                }
            }
            assert forall|s: Seq<char>| #[trigger] res@.contains_key(s) implies res@[s] == count_of(
                names,
                s,
                i as int,
            ) by {
                if s != name {
                    assert(count_of(names, s, i as int) == count_of(names, s, i - 1));
                }
            }
        }
    }
    res
}

/// Which entries to ask about, given the service of each entry of a plan in
/// order: their ranks, ascending.
///
/// The first of each service is always among them, and no service gives more
/// than `size` (or one, if `size` is zero), nor more than it has.
pub fn sample(services: &Vec<String>, size: usize) -> (res: Vec<usize>)
    ensures
        forall|q: int|
            0 <= q < res@.len() ==> #[trigger] res@[q] < services@.len() && sampled(
                strings_view(services@),
                size as nat,
                res@[q] as int,
            ),
        forall|a: int, b: int| 0 <= a < b < res@.len() ==> #[trigger] res@[a] < #[trigger] res@[b],
        forall|r: int|
            0 <= r < services@.len() && sampled(strings_view(services@), size as nat, r) ==> res@.contains(
                r as usize,
            ),
        forall|r: int|
            0 <= r < services@.len() && count_of(
                strings_view(services@),
                strings_view(services@)[r],
                r,
            ) == 0 ==> #[trigger] res@.contains(r as usize),
        forall|r: int|
            0 <= r < services@.len() && count_of(
                strings_view(services@),
                strings_view(services@)[r],
                services@.len() as int,
            ) <= size ==> #[trigger] res@.contains(r as usize),
        res@.len() <= services@.len(),
{
    let ghost names = strings_view(services@);
    let n = services.len();
    let totals = counts(services, n);
    let mut seen: TextMap<usize> = TextMap::new();
    let mut res: Vec<usize> = Vec::new();
    let mut r: usize = 0;
    while r < n
        invariant
            r <= n == services@.len(),
            names == strings_view(services@),
            forall|s: Seq<char>|
                #![trigger totals@.contains_key(s)]
                totals@.contains_key(s) == (count_of(names, s, n as int) > 0),
            forall|s: Seq<char>|
                #[trigger] totals@.contains_key(s) ==> totals@[s] == count_of(names, s, n as int),
            forall|s: Seq<char>|
                #![trigger seen@.contains_key(s)]
                seen@.contains_key(s) == (count_of(names, s, r as int) > 0),
            forall|s: Seq<char>|
                #[trigger] seen@.contains_key(s) ==> seen@[s] == count_of(names, s, r as int),
            forall|q: int| 0 <= q < res@.len() ==> #[trigger] res@[q] < r,
            res@.len() <= r,
            forall|q: int|
                0 <= q < res@.len() ==> sampled(names, size as nat, #[trigger] res@[q] as int),
            forall|a: int, b: int| 0 <= a < b < res@.len() ==> #[trigger] res@[a] < #[trigger] res@[b],
            forall|x: int| 0 <= x < r && sampled(names, size as nat, x) ==> res@.contains(x as usize),
        decreases n - r,
    {
        let ghost name = names[r as int];
        proof {
            lemma_count_bounds(names, name, r as int, n as int);
            lemma_count_prefix(names, name, r as int);
        }
        let position = match seen.get(&services[r]) {
            Some(c) => *c,
            None => 0,
        };
        let count = match totals.get(&services[r]) {
            Some(c) => *c,
            None => 0,
        };
        assert(position == count_of(names, name, r as int));
        assert(count == count_of(names, name, n as int));
        let at_least_one = if size >= 1 {
            size
        } else {
            1
        };
        let want = if at_least_one <= count {
            at_least_one
        } else {
            count
        };
        assert(1 <= want <= count);
        let stride = (count - 1) / want + 1;
        proof {
            lemma_stride(count as int, want as int);
        }
        assert(stride == (count + want - 1) / (want as int)) by (nonlinear_arith)
            requires
                want >= 1,
                count >= 1,
                stride == (count - 1) / (want as int) + 1,
        ;
        let ghost before = res@;
        if position % stride == 0 && position / stride < want {
            res.push(r);
            proof {
                assert(res@ =~= before.push(r));
            }
        }
        seen.insert(services[r].clone(), position + 1);
        r = r + 1;
        proof {
            assert(sampled(names, size as nat, r - 1) == (position % stride == 0 && position
                / stride < want));
            assert forall|s: Seq<char>| s != name implies #[trigger] count_of(names, s, r as int)
                == count_of(names, s, r - 1) by {}
            assert forall|s: Seq<char>| #[trigger] seen@.contains_key(s) == (count_of(
                names,
                s,
                r as int,
            ) > 0) by {
                if s != name {
                    assert(count_of(names, s, r as int) == count_of(names, s, r - 1));
                }
            }
            assert forall|s: Seq<char>| #[trigger] seen@.contains_key(s) implies seen@[s]
                == count_of(names, s, r as int) by {
                if s != name {
                    assert(count_of(names, s, r as int) == count_of(names, s, r - 1));
                }
            }
            assert forall|x: int| 0 <= x < r && sampled(names, size as nat, x) implies res@.contains(
                x as usize,
            ) by {
                if x == r - 1 {
                    assert(res@[res@.len() - 1] == x as usize);
                } else {
                    let q = before.index_of(x as usize);
                    assert(res@[q] == x as usize);
                }
            }
        }
    }
    proof {
        assert forall|x: int|
            0 <= x < services@.len() && count_of(names, names[x], x) == 0 implies #[trigger] res@.contains(
            x as usize,
        ) by {
            lemma_count_bounds(names, names[x], x, n as int);
            let count = count_of(names, names[x], n as int);
            let at_least_one: int = if size >= 1 {
                size as int
            } else {
                1
            };
            let want: int = if at_least_one <= count {
                at_least_one
            } else {
                count as int
            };
            lemma_stride(count as int, want);
            assert(sampled(names, size as nat, x));
        }
        assert forall|x: int|
            0 <= x < services@.len() && count_of(names, names[x], n as int) <= size implies #[trigger] res@.contains(
            x as usize,
        ) by {
            lemma_count_bounds(names, names[x], x, n as int);
            let c = count_of(names, names[x], n as int) as int;
            assert((c + c - 1) / c == 1) by (nonlinear_arith)
                requires
                    c >= 1,
            ;
            assert(sampled(names, size as nat, x));
        }
    }
    res
}

/// How many of the answers say the URL is there.
pub open spec fn count_ok(checked: Seq<Checked>) -> nat
    decreases checked.len(),
{
    if checked.len() == 0 {
        0
    } else {
        count_ok(checked.drop_last()) + if says_ok(checked.last().status) {
            1nat
        } else {
            0nat
        }
    }
}

/// How many of the answers say the URL cannot exist.
pub open spec fn count_wrong(checked: Seq<Checked>) -> nat
    decreases checked.len(),
{
    if checked.len() == 0 {
        0
    } else {
        count_wrong(checked.drop_last()) + if says_wrong(checked.last().status) {
            1nat
        } else {
            0nat
        }
    }
}

/// How a sample answered: how many URLs answered as ones that exist, and how
/// many as ones that cannot. A plan with any of the second is refused: each
/// of its entries costs a real request and warms nothing.
pub fn tally(checked: &Vec<Checked>) -> (res: (usize, usize))
    ensures
        res.0 == count_ok(checked@),
        res.1 == count_wrong(checked@),
{
    let mut ok: usize = 0;
    let mut wrong: usize = 0;
    let mut i: usize = 0;
    proof {
        assert(checked@.take(0) =~= Seq::<Checked>::empty());
    }
    while i < checked.len()
        invariant
            i <= checked@.len(),
            ok == count_ok(checked@.take(i as int)),
            wrong == count_wrong(checked@.take(i as int)),
            ok <= i,
            wrong <= i,
        decreases checked.len() - i,
    {
        proof {
            let t = checked@.take(i + 1);
            assert(t.drop_last() =~= checked@.take(i as int));
            assert(t.last() == checked@[i as int]);
        }
        if checked[i].ok() {
            ok = ok + 1;
        }
        if checked[i].is_wrong() {
            wrong = wrong + 1;
        }
        i = i + 1;
    }
    proof {
        assert(checked@.take(i as int) =~= checked@);
    }
    (ok, wrong)
}

} // verus!
