//! Specification model: path lists as sequences of character sequences.

use vstd::prelude::*;

verus! {

/// `s` holds no occurrence of the separator.
pub open spec fn sep_free(s: Seq<char>, sep: char) -> bool {
    !s.contains(sep)
}

/// Every entry of `parts` is free of the separator.
pub open spec fn all_sep_free(parts: Seq<Seq<char>>, sep: char) -> bool {
    forall|k: int| 0 <= k < parts.len() ==> sep_free(#[trigger] parts[k], sep)
}

/// The entries of `parts` joined with one `sep` between consecutive entries.
pub open spec fn join_spec(parts: Seq<Seq<char>>, sep: char) -> Seq<char>
    decreases parts.len(),
{
    if parts.len() == 0 {
        Seq::empty()
    } else if parts.len() == 1 {
        parts[0]
    } else {
        join_spec(parts.drop_last(), sep) + seq![sep] + parts.last()
    }
}

/// The segments of `s` delimited by `sep`, empty segments kept: a non-empty
/// result for every `s`, with one segment more than there are separators.
pub open spec fn segments_spec(s: Seq<char>, sep: char) -> Seq<Seq<char>>
    decreases s.len(),
{
    if s.len() == 0 {
        seq![Seq::<char>::empty()]
    } else if s.last() == sep {
        segments_spec(s.drop_last(), sep).push(Seq::<char>::empty())
    } else {
        let rest = segments_spec(s.drop_last(), sep);
        rest.update(rest.len() - 1, rest.last().push(s.last()))
    }
}

/// The candidate list read from a raw variable value: empty for the empty
/// string, otherwise the `sep`-delimited segments of `s`, empty ones kept.
pub open spec fn split_spec(s: Seq<char>, sep: char) -> Seq<Seq<char>> {
    if s.len() == 0 {
        Seq::empty()
    } else {
        segments_spec(s, sep)
    }
}

/// First-occurrence de-duplication: scanning in order, an entry is kept
/// exactly when an equal entry has not been kept already.
pub open spec fn dedup_spec(s: Seq<Seq<char>>) -> Seq<Seq<char>>
    decreases s.len(),
{
    if s.len() == 0 {
        Seq::empty()
    } else {
        let prefix = dedup_spec(s.drop_last());
        if prefix.contains(s.last()) {
            prefix
        } else {
            prefix.push(s.last())
        }
    }
}

/// The entries of `s` whose flag in `keep` is set, in order.
pub open spec fn filter_spec(s: Seq<Seq<char>>, keep: Seq<bool>) -> Seq<Seq<char>>
    recommends
        s.len() == keep.len(),
    decreases s.len(),
{
    if s.len() == 0 {
        Seq::empty()
    } else if keep.last() {
        filter_spec(s.drop_last(), keep.drop_last()).push(s.last())
    } else {
        filter_spec(s.drop_last(), keep.drop_last())
    }
}

/// The flags the filter actually applies: the existence flags when the
/// existence filter is on, otherwise a flag for every entry.
pub open spec fn effective_keep(require_exists: bool, exists: Seq<bool>) -> Seq<bool> {
    if require_exists {
        exists
    } else {
        Seq::new(exists.len(), |i: int| true)
    }
}

/// `a` can be read off `b` in order: `b` with some entries dropped is `a`.
pub open spec fn is_subseq_of(a: Seq<Seq<char>>, b: Seq<Seq<char>>) -> bool
    decreases b.len(),
{
    if a.len() == 0 {
        true
    } else if b.len() == 0 {
        false
    } else if a.last() == b.last() {
        is_subseq_of(a.drop_last(), b.drop_last())
    } else {
        is_subseq_of(a, b.drop_last())
    }
}

} // verus!
