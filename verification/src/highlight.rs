//! Cutting a line into the pieces that match a search text and the pieces
//! between them.
//!
//! The occurrences are taken from left to right and do not overlap: after an
//! occurrence the search goes on behind it. Every piece holds at least one
//! character, and the pieces of a line, put together, are the line.

use vstd::prelude::*;
use vstd::slice::slice_subrange;
use vstd::slice::slice_to_vec;

verus! {

/// A piece of a line, as mathematical values.
pub struct FragmentView {
    /// The characters of the piece.
    pub text: Seq<char>,
    /// Whether the piece is an occurrence of the search text.
    pub matched: bool,
}

/// A piece of a line: an occurrence of the search text, or the text between
/// two occurrences.
#[derive(Debug, Clone, PartialEq, Eq)]
pub struct Fragment {
    /// The characters of the piece.
    pub text: Vec<char>,
    /// Whether the piece is an occurrence of the search text.
    pub matched: bool,
}

impl View for Fragment {
    type V = FragmentView;

    open spec fn view(&self) -> FragmentView {
        FragmentView { text: self.text@, matched: self.matched }
    }
}

/// A list of pieces, each read as its mathematical value.
pub open spec fn fragments_of(v: Seq<Fragment>) -> Seq<FragmentView> {
    v.map_values(|f: Fragment| f@)
}

/// Whether `q` stands in `t` at position `i`.
pub open spec fn occurs_at(t: Seq<char>, q: Seq<char>, i: int) -> bool {
    0 <= i && i + q.len() <= t.len() && t.subrange(i, i + q.len()) == q
}

/// Index of the first occurrence of `q` in `t` at or after `i`, or the length
/// of `t` where there is none.
pub open spec fn next_match(t: Seq<char>, q: Seq<char>, i: int) -> int
    decreases t.len() - i,
{
    if i >= t.len() || i + q.len() > t.len() {
        t.len() as int
    } else if occurs_at(t, q, i) {
        i
    } else {
        next_match(t, q, i + 1)
    }
}

/// The text between `from` and `to`, as a piece that is no occurrence.
pub open spec fn plain_piece(t: Seq<char>, from: int, to: int) -> FragmentView {
    FragmentView { text: t.subrange(from, to), matched: false }
}

/// The occurrence of `q` that starts at `at`.
pub open spec fn matched_piece(t: Seq<char>, q: Seq<char>, at: int) -> FragmentView {
    FragmentView { text: t.subrange(at, at + q.len()), matched: true }
}

/// The pieces of `t` from position `i` on, for the search text `q`. An empty
/// search text occurs nowhere.
pub open spec fn pieces_from(t: Seq<char>, q: Seq<char>, i: int) -> Seq<FragmentView>
    decreases t.len() - i,
{
    if i >= t.len() || i < 0 {
        Seq::empty()
    } else if q.len() == 0 {
        seq![plain_piece(t, i, t.len() as int)]
    } else {
        let m = next_match(t, q, i);
        proof {
            lemma_next_match_bounds(t, q, i);
        }
        if m >= t.len() {
            seq![plain_piece(t, i, t.len() as int)]
        } else if m > i {
            seq![plain_piece(t, i, m), matched_piece(t, q, m)] + pieces_from(t, q, m + q.len())
        } else {
            seq![matched_piece(t, q, m)] + pieces_from(t, q, m + q.len())
        }
    }
}

/// The pieces of the line `t` for the search text `q`.
pub open spec fn pieces(t: Seq<char>, q: Seq<char>) -> Seq<FragmentView> {
    pieces_from(t, q, 0)
}

/// The characters of a list of pieces, one piece after the other.
pub open spec fn joined(p: Seq<FragmentView>) -> Seq<char>
    decreases p.len(),
{
    if p.len() == 0 {
        Seq::empty()
    } else {
        p[0].text + joined(p.drop_first())
    }
}

/// `next_match` does not go back; below the length of `t` it names an
/// occurrence, and no occurrence starts between `i` and it.
pub proof fn lemma_next_match_bounds(t: Seq<char>, q: Seq<char>, i: int)
    requires
        0 <= i <= t.len(),
    ensures
        i <= next_match(t, q, i) <= t.len(),
        next_match(t, q, i) < t.len() ==> occurs_at(t, q, next_match(t, q, i)),
        q.len() > 0 && next_match(t, q, i) < t.len() ==> next_match(t, q, i) + q.len()
            <= t.len(),
        forall|k: int| i <= k < next_match(t, q, i) ==> !occurs_at(t, q, k),
    decreases t.len() - i,
{
    if i < t.len() && i + q.len() <= t.len() && !occurs_at(t, q, i) {
        lemma_next_match_bounds(t, q, i + 1);
    }
}

/// A list of one piece reads as that piece.
pub proof fn lemma_joined_one(p: FragmentView)
    ensures
        joined(seq![p]) == p.text,
{
    let one = seq![p];
    assert(one.drop_first() =~= Seq::<FragmentView>::empty());
    assert(joined(one.drop_first()) =~= Seq::<char>::empty());
    assert(joined(one) =~= p.text);
}

/// Joining two lists of pieces, one after the other, joins their characters.
pub proof fn lemma_joined_concat(a: Seq<FragmentView>, b: Seq<FragmentView>)
    ensures
        joined(a + b) == joined(a) + joined(b),
    decreases a.len(),
{
    if a.len() == 0 {
        assert(a + b =~= b);
        assert(joined(a) + joined(b) =~= joined(b));
    } else {
        lemma_joined_concat(a.drop_first(), b);
        assert((a + b).drop_first() =~= a.drop_first() + b);
        assert(joined(a + b) =~= joined(a) + joined(b));
    }
}

/// The pieces from `i` on, put together, are the line from `i` on, whatever
/// is searched for.
pub proof fn lemma_pieces_keep_text(t: Seq<char>, q: Seq<char>, i: int)
    requires
        0 <= i <= t.len(),
    ensures
        joined(pieces_from(t, q, i)) == t.subrange(i, t.len() as int),
    decreases t.len() - i,
{
    let end = t.len() as int;
    if i >= t.len() {
        assert(t.subrange(i, end) =~= Seq::<char>::empty());
    } else if q.len() == 0 {
        lemma_joined_one(plain_piece(t, i, end));
    } else {
        let m = next_match(t, q, i);
        lemma_next_match_bounds(t, q, i);
        if m >= t.len() {
            lemma_joined_one(plain_piece(t, i, end));
        } else {
            let rest = pieces_from(t, q, m + q.len());
            lemma_pieces_keep_text(t, q, m + q.len());
            let hit = seq![matched_piece(t, q, m)];
            lemma_joined_one(matched_piece(t, q, m));
            if m > i {
                let gap = seq![plain_piece(t, i, m)];
                lemma_joined_one(plain_piece(t, i, m));
                assert(seq![plain_piece(t, i, m), matched_piece(t, q, m)] =~= gap + hit);
                lemma_joined_concat(gap, hit);
                lemma_joined_concat(gap + hit, rest);
                assert(joined(pieces_from(t, q, i)) =~= t.subrange(i, end));
            } else {
                lemma_joined_concat(hit, rest);
                assert(joined(pieces_from(t, q, i)) =~= t.subrange(i, end));
            }
        }
    }
}

/// Every piece from `i` on holds a character, and every occurrence among them
/// reads as the search text.
pub proof fn lemma_pieces_shape(t: Seq<char>, q: Seq<char>, i: int)
    requires
        0 <= i <= t.len(),
    ensures
        forall|k: int|
            0 <= k < pieces_from(t, q, i).len() ==> {
                &&& (#[trigger] pieces_from(t, q, i)[k]).text.len() > 0
                &&& pieces_from(t, q, i)[k].matched ==> pieces_from(t, q, i)[k].text == q
            },
    decreases t.len() - i,
{
    let all = pieces_from(t, q, i);
    if i < t.len() && q.len() > 0 {
        let m = next_match(t, q, i);
        lemma_next_match_bounds(t, q, i);
        if m < t.len() {
            let rest = pieces_from(t, q, m + q.len());
            lemma_pieces_shape(t, q, m + q.len());
            let head: int = if m > i {
                2
            } else {
                1
            };
            assert forall|k: int| 0 <= k < all.len() implies {
                &&& (#[trigger] all[k]).text.len() > 0
                &&& all[k].matched ==> all[k].text == q
            } by {
                if k >= head {
                    assert(all[k] == rest[k - head]);
                }
            }
        }
    }
}

/// Tells whether `q` stands in `t` at position `i`.
pub fn matches_at(t: &[char], q: &[char], i: usize) -> (found: bool)
    requires
        i + q.len() <= t.len(),
    ensures
        found == occurs_at(t@, q@, i as int),
{
    let mut j: usize = 0;
    while j < q.len()
        invariant
            j <= q.len(),
            i + q.len() <= t.len(),
            forall|k: int| 0 <= k < j ==> t@[i + k] == q@[k],
        decreases q.len() - j,
    {
        if t[i + j] != q[j] {
            proof {
                let part = t@.subrange(i as int, i + q@.len());
                assert(part[j as int] == t@[i + j]);
            }
            return false;
        }
        j += 1;
    }
    proof {
        assert(t@.subrange(i as int, i + q@.len()) =~= q@);
    }
    true
}

/// Finds the first occurrence of the non-empty `q` in `t` at or after `i`;
/// returns the length of `t` where there is none.
pub fn find_match(t: &[char], q: &[char], i: usize) -> (at: usize)
    requires
        q.len() > 0,
        i <= t.len(),
    ensures
        at as int == next_match(t@, q@, i as int),
        i <= at <= t.len(),
        at < t.len() ==> at + q.len() <= t.len(),
{
    proof {
        lemma_next_match_bounds(t@, q@, i as int);
    }
    if q.len() > t.len() {
        return t.len();
    }
    let last: usize = t.len() - q.len();
    let mut k: usize = i;
    while k <= last
        invariant
            i <= k <= t.len(),
            q.len() > 0,
            last + q.len() == t.len(),
            next_match(t@, q@, k as int) == next_match(t@, q@, i as int),
        decreases t.len() - k,
    {
        if matches_at(t, q, k) {
            return k;
        }
        k += 1;
    }
    t.len()
}

/// Copies the characters of `t` between `from` and `to`.
pub fn copy_range(t: &[char], from: usize, to: usize) -> (text: Vec<char>)
    requires
        from <= to <= t.len(),
    ensures
        text@ == t@.subrange(from as int, to as int),
{
    slice_to_vec(slice_subrange(t, from, to))
}

/// Cuts the line `t` into its pieces for the search text `q`.
pub fn mark(t: &[char], q: &[char]) -> (out: Vec<Fragment>)
    ensures
        fragments_of(out@) == pieces(t@, q@),
{
    let mut out: Vec<Fragment> = Vec::new();
    let n: usize = t.len();
    assert(fragments_of(out@) =~= Seq::<FragmentView>::empty());
    if n == 0 {
        return out;
    }
    if q.len() == 0 {
        out.push(Fragment { text: copy_range(t, 0, n), matched: false });
        assert(fragments_of(out@) =~= pieces(t@, q@));
        return out;
    }
    let ghost whole = pieces(t@, q@);
    let mut i: usize = 0;
    while i < n
        invariant_except_break
            fragments_of(out@) + pieces_from(t@, q@, i as int) == whole,
        invariant
            n == t.len(),
            q.len() > 0,
            i <= n,
        ensures
            fragments_of(out@) == whole,
        decreases n - i,
    {
        let ghost sofar = fragments_of(out@);
        let ghost rest = pieces_from(t@, q@, i as int);
        let m: usize = find_match(t, q, i);
        if m >= n {
            out.push(Fragment { text: copy_range(t, i, n), matched: false });
            assert(fragments_of(out@) =~= sofar + rest);
            break ;
        }
        if m > i {
            out.push(Fragment { text: copy_range(t, i, m), matched: false });
        }
        let after: usize = m + q.len();
        out.push(Fragment { text: copy_range(t, m, after), matched: true });
        proof {
            let tail = pieces_from(t@, q@, after as int);
            assert(fragments_of(out@) + tail =~= sofar + rest);
        }
        i = after;
    }
    proof {
        if i >= n {
            assert(fragments_of(out@) + pieces_from(t@, q@, i as int) =~= fragments_of(out@));
        }
    }
    out
}

} // verus!
