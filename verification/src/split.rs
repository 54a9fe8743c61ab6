//! Cutting a text at the occurrences of a pattern, the way `str::split`
//! does, and putting it back together with another separator, the way
//! `str::replace` does.
use vstd::prelude::*;

verus! {

/// The characters of a text, in order.
pub fn chars_of(text: &str) -> (r: Vec<char>)
    ensures
        r@ == text@,
{
    let mut out: Vec<char> = Vec::new();
    broadcast use vstd::string::axiom_spec_iter;
    for c in it: text.chars()
        invariant
            out@ == it.seq().take(it.index() as int),
            it.seq() == text@,
    {
        out.push(c);
    }
    out
}

/// `pat` occurs in `s` at `i`.
pub open spec fn occurs_at(s: Seq<char>, pat: Seq<char>, i: int) -> bool {
    &&& 0 <= i
    &&& i + pat.len() <= s.len()
    &&& s.subrange(i, i + pat.len()) == pat
}

/// The pieces of `s` from `start` on, cut at the occurrences of `pat`
/// looked for from `i` on: the leftmost occurrence ends a piece and the
/// search resumes after it, so occurrences never overlap; the rest of the
/// text is the last piece.
pub open spec fn pieces_from(s: Seq<char>, pat: Seq<char>, start: int, i: int) -> Seq<Seq<char>>
    decreases s.len() - i,
{
    if pat.len() == 0 || i < 0 || i + pat.len() > s.len() {
        seq![s.subrange(start, s.len() as int)]
    } else if occurs_at(s, pat, i) {
        seq![s.subrange(start, i)] + pieces_from(s, pat, i + pat.len(), i + pat.len())
    } else {
        pieces_from(s, pat, start, i + 1)
    }
}

/// The pieces of `s` between the occurrences of `pat`, as `str::split`
/// cuts a text at a non-empty pattern.
pub open spec fn split_text(s: Seq<char>, pat: Seq<char>) -> Seq<Seq<char>> {
    pieces_from(s, pat, 0, 0)
}

/// The texts that ranges of `s` hold.
pub open spec fn range_texts(s: Seq<char>, ranges: Seq<(usize, usize)>) -> Seq<Seq<char>> {
    ranges.map_values(|r: (usize, usize)| s.subrange(r.0 as int, r.1 as int))
}

/// Tells whether `pat` occurs in `s` at `i`.
fn occurs(s: &Vec<char>, i: usize, pat: &Vec<char>) -> (r: bool)
    requires
        i + pat@.len() <= s@.len(),
    ensures
        r == (s@.subrange(i as int, i + pat@.len()) == pat@),
{
    let n = s.len();
    let mut k: usize = 0;
    while k < pat.len()
        invariant
            k <= pat@.len(),
            n == s@.len(),
            i + pat@.len() <= s@.len(),
            forall|j: int| 0 <= j < k ==> s@[i + j] == pat@[j],
        decreases pat@.len() - k,
    {
        if s[i + k] != pat[k] {
            proof {
                assert(s@.subrange(i as int, i + pat@.len())[k as int] != pat@[k as int]);
            }
            return false;
        }
        k = k + 1;
    }
    proof {
        assert(s@.subrange(i as int, i + pat@.len()) =~= pat@);
    }
    true
}

/// Cuts the window `lo..hi` of `s` at the occurrences of `pat`; the pieces
/// come back as ranges of `s`.
pub fn split_ranges(s: &Vec<char>, lo: usize, hi: usize, pat: &Vec<char>) -> (r: Vec<(usize, usize)>)
    requires
        lo <= hi <= s@.len(),
        pat@.len() > 0,
    ensures
        range_texts(s@, r@) == split_text(s@.subrange(lo as int, hi as int), pat@),
        forall|k: int| 0 <= k < r@.len() ==> lo <= (#[trigger] r@[k]).0 <= r@[k].1 <= hi,
{
    let ghost w = s@.subrange(lo as int, hi as int);
    let plen = pat.len();
    let mut out: Vec<(usize, usize)> = Vec::new();
    let mut start: usize = lo;
    let mut i: usize = lo;
    while i <= hi && plen <= hi - i
        invariant
            lo <= start <= i <= hi,
            hi <= s@.len(),
            plen == pat@.len(),
            plen > 0,
            w == s@.subrange(lo as int, hi as int),
            range_texts(s@, out@) + pieces_from(w, pat@, start - lo, i - lo) == split_text(w, pat@),
            forall|k: int| 0 <= k < out@.len() ==> lo <= (#[trigger] out@[k]).0 <= out@[k].1 <= hi,
        decreases hi - i,
    {
        let found = occurs(s, i, pat);
        proof {
            assert(w.subrange(i - lo, i - lo + plen) =~= s@.subrange(i as int, i + plen));
        }
        if found {
            proof {
                assert(w.subrange(start - lo, i - lo) =~= s@.subrange(start as int, i as int));
                assert(range_texts(s@, out@.push((start, i))) =~= range_texts(s@, out@).push(s@.subrange(start as int, i as int)));
                assert(range_texts(s@, out@) + pieces_from(w, pat@, start - lo, i - lo)
                    =~= range_texts(s@, out@.push((start, i))) + pieces_from(w, pat@, i - lo + plen, i - lo + plen));
            }
            out.push((start, i));
            i = i + plen;
            start = i;
        } else {
            i = i + 1;
        }
    }
    proof {
        assert(w.subrange(start - lo, w.len() as int) =~= s@.subrange(start as int, hi as int));
        assert(range_texts(s@, out@.push((start, hi))) =~= range_texts(s@, out@).push(s@.subrange(start as int, hi as int)));
        assert(range_texts(s@, out@) + pieces_from(w, pat@, start - lo, i - lo) =~= range_texts(s@, out@.push((start, hi))));
    }
    out.push((start, hi));
    out
}

/// Cutting a text always leaves at least one piece.
pub proof fn lemma_pieces_nonempty(s: Seq<char>, pat: Seq<char>, start: int, i: int)
    ensures
        pieces_from(s, pat, start, i).len() >= 1,
    decreases s.len() - i,
{
    if pat.len() == 0 || i < 0 || i + pat.len() > s.len() {
    } else if occurs_at(s, pat, i) {
        lemma_pieces_nonempty(s, pat, i + pat.len(), i + pat.len());
    } else {
        lemma_pieces_nonempty(s, pat, start, i + 1);
    }
}

/// The pieces put back together with `sep` between each two.
pub open spec fn joined(pieces: Seq<Seq<char>>, sep: Seq<char>) -> Seq<char>
    decreases pieces.len(),
{
    if pieces.len() == 0 {
        Seq::empty()
    } else if pieces.len() == 1 {
        pieces[0]
    } else {
        joined(pieces.drop_last(), sep) + sep + pieces.last()
    }
}

/// The text with every occurrence of `from` (found from the left, without
/// overlaps) replaced by `to`, as `str::replace` does with a non-empty
/// pattern.
pub open spec fn replaced(s: Seq<char>, from: Seq<char>, to: Seq<char>) -> Seq<char> {
    joined(split_text(s, from), to)
}

/// Replaces every occurrence of a non-empty pattern in a text.
pub fn replace_all(text: &str, from: &Vec<char>, to: &str) -> (r: String)
    requires
        from@.len() > 0,
    ensures
        r@ == replaced(text@, from@, to@),
{
    let chars = chars_of(text);
    let n = chars.len();
    proof {
        assert(chars@.subrange(0, n as int) =~= chars@);
    }
    let ranges = split_ranges(&chars, 0, n, from);
    let ghost pieces = range_texts(chars@, ranges@);
    let mut out = String::new();
    let mut k: usize = 0;
    while k < ranges.len()
        invariant
            k <= ranges@.len(),
            pieces == range_texts(chars@, ranges@),
            pieces.len() == ranges@.len(),
            forall|j: int| 0 <= j < ranges@.len() ==> (#[trigger] ranges@[j]).0 <= ranges@[j].1 <= chars@.len(),
            out@ == joined(pieces.take(k as int), to@),
        decreases ranges@.len() - k,
    {
        let (a, b) = ranges[k];
        let piece = crate::text::text_of(vstd::slice::slice_subrange(chars.as_slice(), a, b));
        proof {
            assert(pieces[k as int] == chars@.subrange(a as int, b as int));
            assert(pieces.take(k + 1).drop_last() =~= pieces.take(k as int));
            assert(pieces.take(k + 1).last() == piece@);
        }
        if k > 0 {
            out.append(to);
        } else {
            proof {
                assert(pieces.take(1) =~= seq![piece@]);
            }
        }
        out.append(piece.as_str());
        k = k + 1;
    }
    proof {
        assert(pieces.take(k as int) =~= pieces);
        assert(chars@ == text@);
    }
    out
}

} // verus!
