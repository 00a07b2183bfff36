//! Fuzzy matching of a query against a list of texts, and finding the entries that
//! the matched texts stand for.

use vstd::prelude::*;
use crate::text::string_views;

verus! {

/// The entries of `haystack` that `fragment::matching::find` returns for `needle`,
/// best matches first, at most `max_results` of them.
pub uninterp spec fn fuzzy_find(needle: Seq<char>, haystack: Seq<Seq<char>>, max_results: nat) -> Seq<Seq<char>>;

/// Calls `fragment::matching::find`, handing out copies of the matched entries in
/// the order it returns them. The contract names the result and states what the
/// source shows: at most `max_results` entries, each of them one of the haystack's.
#[verifier::external_body]
pub(crate) fn find_matches(needle: &str, haystack: &Vec<String>, max_results: usize) -> (r: Vec<String>)
    ensures
        string_views(r@) == fuzzy_find(needle@, string_views(haystack@), max_results as nat),
        r@.len() <= max_results,
        forall|i: int| 0 <= i < r@.len() ==> string_views(haystack@).contains(#[trigger] r@[i]@),
{
    fragment::matching::find(needle, haystack, max_results).into_iter().map(|m| (**m).clone()).collect()
}

/// How often `t` occurs in `ts`.
pub open spec fn count_of(ts: Seq<Seq<char>>, t: Seq<char>) -> nat
    decreases ts.len(),
{
    if ts.len() == 0 {
        0
    } else {
        count_of(ts.drop_last(), t) + if ts.last() == t {
            1nat
        } else {
            0nat
        }
    }
}

/// The position in `keys[i..]` of the `m`-th (counting from 0) occurrence of `t`.
pub open spec fn nth_position(keys: Seq<Seq<char>>, t: Seq<char>, m: nat, i: int) -> Option<int>
    decreases keys.len() - i,
{
    if i < 0 || i >= keys.len() {
        None
    } else if keys[i] == t {
        if m == 0 {
            Some(i)
        } else {
            nth_position(keys, t, (m - 1) as nat, i + 1)
        }
    } else {
        nth_position(keys, t, m, i + 1)
    }
}

/// The positions in `keys` of the entries that the matched texts `found` stand
/// for. Entries with equal texts match equally well and keep their order among
/// the matches, so the `m`-th occurrence of a text among the matches is the
/// `m`-th entry with that text.
pub open spec fn matched_positions(keys: Seq<Seq<char>>, found: Seq<Seq<char>>) -> Seq<int>
    decreases found.len(),
{
    if found.len() == 0 {
        Seq::empty()
    } else {
        let earlier = found.drop_last();
        match nth_position(keys, found.last(), count_of(earlier, found.last()), 0) {
            Some(i) => matched_positions(keys, earlier).push(i),
            None => matched_positions(keys, earlier),
        }
    }
}

/// The position of the `m`-th occurrence of `t` in `keys`.
fn find_nth(keys: &Vec<String>, t: &String, m: usize) -> (r: Option<usize>)
    ensures
        r matches Some(k) ==> nth_position(string_views(keys@), t@, m as nat, 0) == Some(k as int)
            && k < keys@.len(),
        r is None ==> nth_position(string_views(keys@), t@, m as nat, 0) is None,
{
    let ghost views = string_views(keys@);
    let mut remaining: usize = m;
    let mut i: usize = 0;
    while i < keys.len()
        invariant
            0 <= i <= keys@.len(),
            views == string_views(keys@),
            nth_position(views, t@, m as nat, 0) == nth_position(views, t@, remaining as nat, i as int),
        decreases keys@.len() - i,
    {
        assert(views[i as int] == keys@[i as int]@);
        if keys[i] == *t {
            if remaining == 0 {
                return Some(i);
            }
            remaining = remaining - 1;
        }
        i = i + 1;
    }
    None
}

/// How often `t` occurs in `ts[..n]`.
fn count_before(ts: &Vec<String>, t: &String, n: usize) -> (c: usize)
    requires
        n <= ts@.len(),
    ensures
        c == count_of(string_views(ts@).subrange(0, n as int), t@),
{
    let ghost views = string_views(ts@);
    let mut c: usize = 0;
    let mut i: usize = 0;
    assert(views.subrange(0, 0) =~= Seq::<Seq<char>>::empty());
    while i < n
        invariant
            0 <= i <= n <= ts@.len(),
            views == string_views(ts@),
            c == count_of(views.subrange(0, i as int), t@),
            c <= i,
        decreases n - i,
    {
        assert(views.subrange(0, i + 1).drop_last() =~= views.subrange(0, i as int));
        assert(views.subrange(0, i + 1).last() == ts@[i as int]@);
        if ts[i] == *t {
            c = c + 1;
        }
        i = i + 1;
    }
    c
}

/// The positions in `keys` of the entries that `found` stands for (see
/// `matched_positions`).
pub(crate) fn match_positions(keys: &Vec<String>, found: &Vec<String>) -> (r: Vec<usize>)
    ensures
        r@.len() == matched_positions(string_views(keys@), string_views(found@)).len(),
        forall|k: int|
            0 <= k < r@.len() ==> #[trigger] r@[k] as int == matched_positions(
                string_views(keys@),
                string_views(found@),
            )[k] && r@[k] < keys@.len(),
{
    let ghost kv = string_views(keys@);
    let ghost fv = string_views(found@);
    let mut r: Vec<usize> = Vec::new();
    let mut j: usize = 0;
    assert(fv.subrange(0, 0) =~= Seq::<Seq<char>>::empty());
    while j < found.len()
        invariant
            0 <= j <= found@.len(),
            kv == string_views(keys@),
            fv == string_views(found@),
            r@.len() == matched_positions(kv, fv.subrange(0, j as int)).len(),
            forall|k: int|
                0 <= k < r@.len() ==> #[trigger] r@[k] as int == matched_positions(
                    kv,
                    fv.subrange(0, j as int),
                )[k] && r@[k] < keys@.len(),
        decreases found@.len() - j,
    {
        let ghost upto = fv.subrange(0, j as int + 1);
        assert(upto.drop_last() =~= fv.subrange(0, j as int));
        assert(upto.last() == found@[j as int]@);
        let m = count_before(found, &found[j], j);
        match find_nth(keys, &found[j], m) {
            Some(k) => {
                r.push(k);
            },
            None => {},
        }
        j = j + 1;
    }
    assert(fv.subrange(0, j as int) =~= fv);
    r
}

} // verus!
