//! Splitting the configured argument string into an argument vector.
//!
//! The launch specification carries its arguments as one configured string;
//! the supervisor splits it on whitespace, in order, dropping empty pieces.

use vstd::prelude::*;

verus! {

/// Whether a character separates arguments.
pub open spec fn is_ws(c: char) -> bool {
    c == ' ' || c == '\t' || c == '\n' || c == '\r'
}

/// The split of the remaining characters, with `cur` the argument accumulated
/// so far.
pub open spec fn split_rec(s: Seq<char>, cur: Seq<char>) -> Seq<Seq<char>>
    decreases s.len(),
{
    if s.len() == 0 {
        if cur.len() == 0 {
            Seq::empty()
        } else {
            seq![cur]
        }
    } else if is_ws(s[0]) {
        if cur.len() == 0 {
            split_rec(s.drop_first(), Seq::empty())
        } else {
            seq![cur] + split_rec(s.drop_first(), Seq::empty())
        }
    } else {
        split_rec(s.drop_first(), cur.push(s[0]))
    }
}

/// The whitespace-separated arguments of a string, in order.
pub open spec fn split_ws_spec(s: Seq<char>) -> Seq<Seq<char>> {
    split_rec(s, Seq::empty())
}

/// Scanning one argument: a run of non-separator characters ending at the
/// string's end or at a separator contributes the accumulated argument and
/// leaves the rest to split on its own.
proof fn lemma_split_scan(t: Seq<char>, cur: Seq<char>, k: int)
    requires
        0 <= k <= t.len(),
        cur.len() + k > 0,
        forall|x: int| 0 <= x < k ==> !is_ws(#[trigger] t[x]),
        k < t.len() ==> is_ws(t[k]),
    ensures
        split_rec(t, cur) == seq![cur + t.take(k)] + split_rec(t.skip(k), Seq::<char>::empty()),
    decreases k,
{
    if k == 0 {
        assert(t.take(0) =~= Seq::<char>::empty());
        assert(cur + t.take(0) =~= cur);
        assert(t.skip(0) =~= t);
        if t.len() == 0 {
            assert(split_rec(t, cur) =~= seq![cur] + split_rec(t, Seq::<char>::empty()));
        } else {
            assert(is_ws(t[0]));
            assert(split_rec(t, Seq::<char>::empty()) == split_rec(
                t.drop_first(),
                Seq::<char>::empty(),
            ));
            assert(split_rec(t, cur) == seq![cur] + split_rec(t.drop_first(), Seq::<char>::empty()));
        }
    } else {
        assert(!is_ws(t[0]));
        assert forall|x: int| 0 <= x < k - 1 implies !is_ws(#[trigger] t.drop_first()[x]) by {
            assert(t.drop_first()[x] == t[x + 1]);
        }
        if k - 1 < t.drop_first().len() {
            assert(t.drop_first()[k - 1] == t[k]);
        }
        lemma_split_scan(t.drop_first(), cur.push(t[0]), k - 1);
        assert(cur.push(t[0]) + t.drop_first().take(k - 1) =~= cur + t.take(k));
        assert(t.drop_first().skip(k - 1) =~= t.skip(k));
    }
}

fn scan_argument(s: &str, from: usize, n: usize) -> (j: usize)
    requires
        n == s@.len(),
        from < n,
        !is_ws(s@[from as int]),
    ensures
        from < j <= n,
        forall|x: int| from <= x < j ==> !is_ws(#[trigger] s@[x]),
        j < n ==> is_ws(s@[j as int]),
{
    let mut j: usize = from + 1;
    while j < n
        invariant
            from < j <= n,
            n == s@.len(),
            !is_ws(s@[from as int]),
            forall|x: int| from <= x < j ==> !is_ws(#[trigger] s@[x]),
        decreases n - j,
    {
        let c = s.get_char(j);
        if c == ' ' || c == '\t' || c == '\n' || c == '\r' {
            return j;
        }
        j = j + 1;
    }
    j
}

/// Splits a string into its whitespace-separated arguments, in order.
pub fn split_ws(s: &str) -> (out: Vec<String>)
    ensures
        out.deep_view() == split_ws_spec(s@),
{
    let n = s.unicode_len();
    let mut out: Vec<String> = Vec::new();
    let mut i: usize = 0;
    proof {
        assert(s@.skip(0) =~= s@);
        assert(out.deep_view() + split_rec(s@, Seq::<char>::empty()) =~= split_ws_spec(s@));
    }
    while i < n
        invariant
            i <= n,
            n == s@.len(),
            split_ws_spec(s@) == out.deep_view() + split_rec(
                s@.skip(i as int),
                Seq::<char>::empty(),
            ),
        decreases n - i,
    {
        let c = s.get_char(i);
        if c == ' ' || c == '\t' || c == '\n' || c == '\r' {
            proof {
                assert(s@.skip(i as int)[0] == s@[i as int]);
                assert(s@.skip(i as int).drop_first() =~= s@.skip(i + 1));
            }
            i = i + 1;
        } else {
            let j = scan_argument(s, i, n);
            let tok = s.substring_char(i, j);
            let ghost before = out.deep_view();
            out.push(String::from_str(tok));
            proof {
                let suf = s@.skip(i as int);
                assert forall|x: int| 0 <= x < j - i implies !is_ws(#[trigger] suf[x]) by {
                    assert(suf[x] == s@[i + x]);
                }
                if j - i < suf.len() {
                    assert(suf[j - i] == s@[j as int]);
                }
                lemma_split_scan(suf, Seq::<char>::empty(), j - i);
                assert(Seq::<char>::empty() + suf.take(j - i) =~= s@.subrange(i as int, j as int));
                assert(suf.skip(j - i) =~= s@.skip(j as int));
                assert(out.deep_view() =~= before.push(tok@));
                assert(before + (seq![tok@] + split_rec(s@.skip(j as int), Seq::<char>::empty()))
                    =~= out.deep_view() + split_rec(s@.skip(j as int), Seq::<char>::empty()));
            }
            i = j;
        }
    }
    proof {
        assert(s@.skip(n as int) =~= Seq::<char>::empty());
        assert(out.deep_view() + split_rec(Seq::<char>::empty(), Seq::<char>::empty())
            =~= out.deep_view());
    }
    out
}

} // verus!
