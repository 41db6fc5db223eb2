//! The filtering core: split a document into lines and keep those lines
//! that contain a search term as a contiguous, case-sensitive substring.
//!
//! Lines follow the usual splitting rule: lines are separated by `'\n'`;
//! a line terminated by `"\r\n"` loses the `'\r'`; a final line without a
//! terminator is kept verbatim; a trailing terminator produces no extra
//! empty line; an empty document has no lines at all.

use vstd::prelude::*;
use vstd::string::StrSliceExecFns;
use vstd::string::StringExecFns;

verus! {

/// A line with one trailing carriage return removed, if it has one.
pub open spec fn strip_cr(l: Seq<char>) -> Seq<char> {
    if l.len() > 0 && l.last() == '\r' {
        l.drop_last()
    } else {
        l
    }
}

/// The index of the first `'\n'` in `s`, or `s.len()` if there is none.
pub open spec fn first_newline(s: Seq<char>) -> int
    decreases s.len(),
{
    if s.len() == 0 {
        0
    } else if s[0] == '\n' {
        0
    } else {
        1 + first_newline(s.skip(1))
    }
}

/// `first_newline` points into `s` or just past it, everything before it
/// is not a `'\n'`, and what it points at, if anything, is one.
pub proof fn lemma_first_newline_bounds(s: Seq<char>)
    ensures
        0 <= first_newline(s) <= s.len(),
        forall|j: int| 0 <= j < first_newline(s) ==> s[j] != '\n',
        first_newline(s) < s.len() ==> s[first_newline(s)] == '\n',
    decreases s.len(),
{
    if s.len() == 0 {
    } else if s[0] == '\n' {
    } else {
        lemma_first_newline_bounds(s.skip(1));
        assert forall|j: int| 0 <= j < first_newline(s) implies s[j] != '\n' by {
            if j > 0 {
                assert(s.skip(1)[j - 1] == s[j]);
            }
        }
        if first_newline(s) < s.len() {
            assert(s.skip(1)[first_newline(s) - 1] == s[first_newline(s)]);
        }
    }
}

/// If `s[m]` is the first `'\n'` of `s`, then `first_newline(s) == m`.
pub proof fn lemma_first_newline_at(s: Seq<char>, m: int)
    requires
        0 <= m < s.len(),
        s[m] == '\n',
        forall|j: int| 0 <= j < m ==> s[j] != '\n',
    ensures
        first_newline(s) == m,
    decreases s.len(),
{
    if m == 0 {
    } else {
        assert(s[0] != '\n');
        assert(s.skip(1)[m - 1] == s[m]);
        assert forall|j: int| 0 <= j < m - 1 implies s.skip(1)[j] != '\n' by {
            assert(s.skip(1)[j] == s[j + 1]);
        }
        lemma_first_newline_at(s.skip(1), m - 1);
    }
}

/// A document without a `'\n'` has `first_newline` equal to its length.
pub proof fn lemma_first_newline_none(s: Seq<char>)
    requires
        forall|j: int| 0 <= j < s.len() ==> s[j] != '\n',
    ensures
        first_newline(s) == s.len(),
    decreases s.len(),
{
    if s.len() == 0 {
    } else {
        assert forall|j: int| 0 <= j < s.skip(1).len() implies s.skip(1)[j] != '\n' by {
            assert(s.skip(1)[j] == s[j + 1]);
        }
        lemma_first_newline_none(s.skip(1));
    }
}

/// The lines of a document: maximal runs of characters between `'\n'`
/// separators, with a `'\r'` that immediately precedes a `'\n'` stripped,
/// and with no empty phantom line after a trailing terminator.
pub open spec fn lines_spec(s: Seq<char>) -> Seq<Seq<char>>
    decreases s.len(),
    via lines_spec_decreases
{
    if s.len() == 0 {
        Seq::empty()
    } else if first_newline(s) == s.len() {
        seq![s]
    } else {
        seq![strip_cr(s.take(first_newline(s)))] + lines_spec(s.skip(first_newline(s) + 1))
    }
}

#[via_fn]
proof fn lines_spec_decreases(s: Seq<char>) {
    lemma_first_newline_bounds(s);
}

/// `term` occurs in `line` as a contiguous substring starting at `i`.
pub open spec fn occurs_at(line: Seq<char>, term: Seq<char>, i: int) -> bool {
    &&& 0 <= i
    &&& i + term.len() <= line.len()
    &&& line.subrange(i, i + term.len()) == term
}

/// `term` occurs somewhere in `line` as a contiguous substring.
pub open spec fn line_matches(line: Seq<char>, term: Seq<char>) -> bool {
    exists|i: int| occurs_at(line, term, i)
}

/// The lines among `lines` that contain `term`, in their original order.
pub open spec fn matching_lines(lines: Seq<Seq<char>>, term: Seq<char>) -> Seq<Seq<char>> {
    lines.filter(|l: Seq<char>| line_matches(l, term))
}

/// What [`filter`] returns: the lines of `document` that contain `term`,
/// in their original order.
pub open spec fn filter_spec(document: Seq<char>, term: Seq<char>) -> Seq<Seq<char>> {
    matching_lines(lines_spec(document), term)
}

/// Whether `term` occurs in `line` as a contiguous, case-sensitive
/// substring. Every string contains the empty term.
pub fn line_contains(line: &str, term: &str) -> (b: bool)
    ensures
        b == line_matches(line@, term@),
{
    let n = line.unicode_len();
    let m = term.unicode_len();
    if m > n {
        proof {
            assert forall|i: int| !occurs_at(line@, term@, i) by {}
        }
        return false;
    }
    if m == 0 {
        proof {
            assert(line@.subrange(0, 0) =~= term@);
            assert(occurs_at(line@, term@, 0));
        }
        return true;
    }
    let mut i: usize = 0;
    while i <= n - m
        invariant
            1 <= m <= n,
            n == line@.len(),
            m == term@.len(),
            i <= n - m + 1,
            forall|t: int| 0 <= t < i ==> !occurs_at(line@, term@, t),
        decreases n - m + 1 - i,
    {
        let mut j: usize = 0;
        let mut ok = true;
        while ok && j < m
            invariant
                i + m <= n,
                n == line@.len(),
                m == term@.len(),
                j <= m,
                ok ==> forall|t: int| 0 <= t < j ==> line@[i + t] == term@[t],
                !ok ==> !occurs_at(line@, term@, i as int),
            decreases m - j,
        {
            if line.get_char(i + j) != term.get_char(j) {
                proof {
                    if occurs_at(line@, term@, i as int) {
                        assert(line@.subrange(i as int, i as int + m as int)[j as int]
                            == line@[i + j]);
                    }
                }
                ok = false;
                j = m;
            } else {
                j += 1;
            }
        }
        if ok {
            proof {
                assert(line@.subrange(i as int, i as int + m as int) =~= term@);
                assert(occurs_at(line@, term@, i as int));
            }
            return true;
        }
        i += 1;
    }
    proof {
        assert forall|t: int| !occurs_at(line@, term@, t) by {
            if 0 <= t < i {
            }
        }
    }
    false
}

/// The lines of `document`, in order, with line terminators stripped.
pub fn split_lines(document: &str) -> (r: Vec<String>)
    ensures
        r.deep_view() == lines_spec(document@),
{
    let n = document.unicode_len();
    let mut out: Vec<String> = Vec::new();
    let mut start: usize = 0;
    let mut k: usize = 0;
    proof {
        assert(document@.skip(0) =~= document@);
        assert(out.deep_view() + lines_spec(document@) =~= lines_spec(document@));
    }
    while k < n
        invariant
            start <= k <= n,
            n == document@.len(),
            forall|j: int| start <= j < k ==> document@[j] != '\n',
            lines_spec(document@) == out.deep_view() + lines_spec(
                document@.skip(start as int),
            ),
        decreases n - k,
    {
        let c = document.get_char(k);
        if c == '\n' {
            let ghost rest = document@.skip(start as int);
            proof {
                assert(rest[k as int - start as int] == document@[k as int]);
                assert forall|j: int| 0 <= j < k as int - start as int implies rest[j]
                    != '\n' by {
                    assert(rest[j] == document@[start as int + j]);
                }
                lemma_first_newline_at(rest, k as int - start as int);
            }
            let end = if k > start && document.get_char(k - 1) == '\r' {
                k - 1
            } else {
                k
            };
            let line = document.substring_char(start, end);
            proof {
                let cur = rest.take(k as int - start as int);
                assert(cur =~= document@.subrange(start as int, k as int));
                if k > start && document@[k as int - 1] == '\r' {
                    assert(cur.last() == document@[k as int - 1]);
                    assert(strip_cr(cur) =~= document@.subrange(start as int, k as int - 1));
                } else {
                    if cur.len() > 0 {
                        assert(cur.last() == document@[k as int - 1]);
                    }
                    assert(strip_cr(cur) =~= cur);
                }
                assert(strip_cr(cur) == line@);
                assert(rest.skip(k as int - start as int + 1) =~= document@.skip(k as int + 1));
                assert(lines_spec(rest) == seq![line@] + lines_spec(document@.skip(k as int + 1)));
            }
            let ghost pre = out.deep_view();
            out.push(String::from_str(line));
            proof {
                assert(out.deep_view() =~= pre.push(line@));
                assert(pre + lines_spec(rest) =~= pre.push(line@) + lines_spec(
                    document@.skip(k as int + 1),
                ));
            }
            start = k + 1;
        }
        k += 1;
    }
    if start < n {
        let line = document.substring_char(start, n);
        let ghost rest = document@.skip(start as int);
        proof {
            assert forall|j: int| 0 <= j < rest.len() implies rest[j] != '\n' by {
                assert(rest[j] == document@[start as int + j]);
            }
            lemma_first_newline_none(rest);
            assert(rest =~= document@.subrange(start as int, n as int));
            assert(lines_spec(rest) == seq![line@]);
        }
        let ghost pre = out.deep_view();
        out.push(String::from_str(line));
        proof {
            assert(out.deep_view() =~= pre.push(line@));
            assert(pre + seq![line@] =~= pre.push(line@));
        }
    } else {
        proof {
            assert(document@.skip(start as int).len() == 0);
            assert(out.deep_view() + lines_spec(document@.skip(start as int)) =~= out.deep_view());
        }
    }
    out
}

/// Appending a line to the input either appends it to the filtered output
/// (when it contains the term) or leaves the output unchanged.
pub proof fn lemma_matching_lines_push(lines: Seq<Seq<char>>, l: Seq<char>, term: Seq<char>)
    ensures
        matching_lines(lines.push(l), term) == (if line_matches(l, term) {
            matching_lines(lines, term).push(l)
        } else {
            matching_lines(lines, term)
        }),
{
    reveal(Seq::filter);
    assert(lines.push(l).drop_last() =~= lines);
    assert(lines.push(l).last() == l);
}

/// The lines of `document` that contain `term`, in their original order,
/// with line terminators stripped and the line text otherwise unchanged.
pub fn filter(document: &str, term: &str) -> (r: Vec<String>)
    ensures
        r.deep_view() == filter_spec(document@, term@),
{
    let lines = split_lines(document);
    let mut out: Vec<String> = Vec::new();
    let mut idx: usize = 0;
    proof {
        reveal(Seq::filter);
        assert(lines.deep_view().take(0) =~= Seq::<Seq<char>>::empty());
        assert(matching_lines(Seq::<Seq<char>>::empty(), term@) =~= Seq::<Seq<char>>::empty());
    }
    while idx < lines.len()
        invariant
            lines.deep_view() == lines_spec(document@),
            idx <= lines@.len(),
            out.deep_view() == matching_lines(lines.deep_view().take(idx as int), term@),
        decreases lines@.len() - idx,
    {
        let ghost dv = lines.deep_view();
        let ghost pre = out.deep_view();
        proof {
            assert(lines@[idx as int]@ == dv[idx as int]);
        }
        let matched = line_contains(lines[idx].as_str(), term);
        if matched {
            out.push(lines[idx].clone());
        }
        proof {
            assert(dv.take(idx as int + 1) =~= dv.take(idx as int).push(dv[idx as int]));
            lemma_matching_lines_push(dv.take(idx as int), dv[idx as int], term@);
            if matched {
                assert(out.deep_view() =~= pre.push(dv[idx as int]));
            }
        }
        idx += 1;
    }
    proof {
        assert(lines.deep_view().take(lines@.len() as int) =~= lines.deep_view());
    }
    out
}

/// An empty document has no lines, so filtering it yields the empty
/// sequence, whatever the term.
pub proof fn lemma_filter_empty_document(term: Seq<char>)
    ensures
        filter_spec(Seq::<char>::empty(), term) == Seq::<Seq<char>>::empty(),
{
    reveal(Seq::filter);
    assert(lines_spec(Seq::<char>::empty()) == Seq::<Seq<char>>::empty());
}

/// Every line contains the empty term.
pub proof fn lemma_empty_term_matches(l: Seq<char>)
    ensures
        line_matches(l, Seq::<char>::empty()),
{
    assert(l.subrange(0, 0) =~= Seq::<char>::empty());
    assert(occurs_at(l, Seq::<char>::empty(), 0));
}

/// When every line matches, filtering keeps the whole sequence unchanged.
proof fn lemma_matching_all(lines: Seq<Seq<char>>, term: Seq<char>)
    requires
        forall|i: int| 0 <= i < lines.len() ==> line_matches(#[trigger] lines[i], term),
    ensures
        matching_lines(lines, term) == lines,
    decreases lines.len(),
{
    reveal(Seq::filter);
    if lines.len() == 0 {
        assert(matching_lines(lines, term) =~= lines);
    } else {
        assert forall|i: int| 0 <= i < lines.drop_last().len() implies line_matches(
            #[trigger] lines.drop_last()[i],
            term,
        ) by {
            assert(lines.drop_last()[i] == lines[i]);
        }
        lemma_matching_all(lines.drop_last(), term);
        assert(line_matches(lines[lines.len() - 1], term));
        assert(matching_lines(lines, term) == lines.drop_last().push(lines.last()));
        assert(lines.drop_last().push(lines.last()) =~= lines);
    }
}

/// Filtering with the empty term keeps every line of the document, in
/// original order, unchanged.
pub proof fn lemma_empty_term_keeps_all(document: Seq<char>)
    ensures
        filter_spec(document, Seq::<char>::empty()) == lines_spec(document),
{
    let lines = lines_spec(document);
    assert forall|i: int| 0 <= i < lines.len() implies line_matches(
        #[trigger] lines[i],
        Seq::<char>::empty(),
    ) by {
        lemma_empty_term_matches(lines[i]);
    }
    lemma_matching_all(lines, Seq::<char>::empty());
}

/// `idx` lists, in strictly increasing order, positions of `b` at which
/// the elements of `a` stand: `a` is the subsequence of `b` picked out by
/// `idx`, in `b`'s own order.
pub open spec fn subsequence_via(a: Seq<Seq<char>>, b: Seq<Seq<char>>, idx: Seq<int>) -> bool {
    &&& idx.len() == a.len()
    &&& forall|k: int| 0 <= k < idx.len() ==> 0 <= #[trigger] idx[k] < b.len() && a[k] == b[idx[k]]
    &&& forall|k: int| 0 < k < idx.len() ==> #[trigger] idx[k - 1] < idx[k]
}

/// `a` occurs within `b` as a subsequence: its elements stand in `b` at
/// strictly increasing positions, so their relative order is `b`'s.
pub open spec fn is_subsequence_of(a: Seq<Seq<char>>, b: Seq<Seq<char>>) -> bool {
    exists|idx: Seq<int>| subsequence_via(a, b, idx)
}

proof fn lemma_matching_lines_witness(lines: Seq<Seq<char>>, term: Seq<char>) -> (idx: Seq<int>)
    ensures
        subsequence_via(matching_lines(lines, term), lines, idx),
    decreases lines.len(),
{
    reveal(Seq::filter);
    if lines.len() == 0 {
        let idx = Seq::<int>::empty();
        assert(matching_lines(lines, term) =~= Seq::<Seq<char>>::empty());
        idx
    } else {
        let prev = lemma_matching_lines_witness(lines.drop_last(), term);
        assert forall|j: int| 0 <= j < lines.drop_last().len() implies lines.drop_last()[j]
            == lines[j] by {}
        if line_matches(lines.last(), term) {
            let idx = prev.push(lines.len() - 1);
            assert(matching_lines(lines, term) == matching_lines(lines.drop_last(), term).push(
                lines.last(),
            ));
            assert forall|k: int| 0 <= k < idx.len() implies 0 <= #[trigger] idx[k] < lines.len()
                && matching_lines(lines, term)[k] == lines[idx[k]] by {
                if k < prev.len() {
                    assert(idx[k] == prev[k]);
                    assert(matching_lines(lines, term)[k] == matching_lines(
                        lines.drop_last(),
                        term,
                    )[k]);
                }
            }
            assert forall|k: int| 0 < k < idx.len() implies #[trigger] idx[k - 1] < idx[k] by {
                if k == idx.len() - 1 && k > 0 {
                    assert(idx[k - 1] == prev[k - 1]);
                    assert(prev[k - 1] < lines.drop_last().len());
                }
            }
            idx
        } else {
            assert(matching_lines(lines, term) == matching_lines(lines.drop_last(), term));
            prev
        }
    }
}

/// The filtered output is a subsequence of the document's lines: no line
/// is invented, duplicated or reordered, and the output's relative order
/// is the lines' original relative order.
pub proof fn lemma_filter_subsequence(document: Seq<char>, term: Seq<char>)
    ensures
        is_subsequence_of(filter_spec(document, term), lines_spec(document)),
{
    let idx = lemma_matching_lines_witness(lines_spec(document), term);
    assert(subsequence_via(filter_spec(document, term), lines_spec(document), idx));
}

proof fn lemma_matching_lines_membership(lines: Seq<Seq<char>>, term: Seq<char>)
    ensures
        forall|l: Seq<char>|
            #[trigger] matching_lines(lines, term).contains(l) <==> (lines.contains(l)
                && line_matches(l, term)),
    decreases lines.len(),
{
    reveal(Seq::filter);
    let out = matching_lines(lines, term);
    if lines.len() == 0 {
        assert(out =~= Seq::<Seq<char>>::empty());
        assert forall|l: Seq<char>| !(#[trigger] lines.contains(l)) by {}
    } else {
        lemma_matching_lines_membership(lines.drop_last(), term);
        let shorter = lines.drop_last();
        let sub = matching_lines(shorter, term);
        let last = lines.last();
        assert forall|l: Seq<char>| #[trigger] out.contains(l) implies lines.contains(l)
            && line_matches(l, term) by {
            let i = choose|i: int| 0 <= i < out.len() && out[i] == l;
            if line_matches(last, term) {
                assert(out == sub.push(last));
                if i < sub.len() {
                    assert(sub[i] == l);
                    assert(sub.contains(l));
                    let j = choose|j: int| 0 <= j < shorter.len() && shorter[j] == l;
                    assert(lines[j] == l);
                } else {
                    assert(l == last);
                    assert(lines[lines.len() - 1] == l);
                }
            } else {
                assert(out == sub);
                assert(sub[i] == l);
                assert(sub.contains(l));
                let j = choose|j: int| 0 <= j < shorter.len() && shorter[j] == l;
                assert(lines[j] == l);
            }
        }
        assert forall|l: Seq<char>| lines.contains(l) && line_matches(l, term) implies #[trigger] out
            .contains(l) by {
            let j = choose|j: int| 0 <= j < lines.len() && lines[j] == l;
            if j < lines.len() - 1 {
                assert(shorter[j] == l);
                assert(shorter.contains(l));
                assert(sub.contains(l));
                let i = choose|i: int| 0 <= i < sub.len() && sub[i] == l;
                if line_matches(last, term) {
                    assert(out == sub.push(last));
                    assert(out[i] == l);
                } else {
                    assert(out == sub);
                }
                assert(out.contains(l));
            } else {
                assert(l == last);
                assert(out == sub.push(last));
                assert(out[out.len() - 1] == l);
                assert(out.contains(l));
            }
        }
    }
}

/// A line stands in the filtered output exactly when it is one of the
/// document's lines and contains the term as a contiguous substring.
pub proof fn lemma_filter_membership(document: Seq<char>, term: Seq<char>)
    ensures
        forall|l: Seq<char>|
            #[trigger] filter_spec(document, term).contains(l) <==> (lines_spec(
                document,
            ).contains(l) && line_matches(l, term)),
{
    lemma_matching_lines_membership(lines_spec(document), term);
}

} // verus!
