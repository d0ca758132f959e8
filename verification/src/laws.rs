//! Properties of the pipeline, proved once for every input.

use vstd::prelude::*;

use crate::model::all_sep_free;
use crate::model::dedup_spec;
use crate::model::filter_spec;
use crate::model::is_subseq_of;
use crate::model::join_spec;
use crate::model::segments_spec;
use crate::model::sep_free;
use crate::model::split_spec;

verus! {

broadcast use vstd::seq_lib::group_seq_properties;

/// De-duplication keeps exactly the entries of its input: nothing is lost
/// and nothing is invented.
pub proof fn lemma_dedup_contains(s: Seq<Seq<char>>, x: Seq<char>)
    ensures
        dedup_spec(s).contains(x) <==> s.contains(x),
    decreases s.len(),
{
    if s.len() == 0 {
        assert(s =~= Seq::<Seq<char>>::empty());
        assert(dedup_spec(s) =~= Seq::<Seq<char>>::empty());
    } else {
        lemma_dedup_contains(s.drop_last(), x);
        let prefix = dedup_spec(s.drop_last());
        assert(s.drop_last().push(s.last()) =~= s);
        assert(s.drop_last().push(s.last()).contains(x) <==> s.drop_last().contains(x)
            || s.last() == x);
        if prefix.contains(s.last()) {
            assert(dedup_spec(s) == prefix);
        } else {
            assert(dedup_spec(s) == prefix.push(s.last()));
            assert(prefix.push(s.last()).contains(x) <==> prefix.contains(x) || s.last() == x);
        }
    }
}

/// The de-duplicated list holds no entry twice: any two positions differ.
pub proof fn lemma_dedup_distinct(s: Seq<Seq<char>>)
    ensures
        forall|i: int, j: int|
            0 <= i < j < dedup_spec(s).len() ==> dedup_spec(s)[i] != dedup_spec(s)[j],
    decreases s.len(),
{
    if s.len() == 0 {
    } else {
        lemma_dedup_distinct(s.drop_last());
        let prefix = dedup_spec(s.drop_last());
        if !prefix.contains(s.last()) {
            let d = prefix.push(s.last());
            assert forall|i: int, j: int| 0 <= i < j < d.len() implies d[i] != d[j] by {
                if j == d.len() - 1 {
                    assert(d[i] == prefix[i]);
                    if prefix[i] == s.last() {
                        assert(prefix.contains(s.last()));
                    }
                } else {
                    assert(d[i] == prefix[i]);
                    assert(d[j] == prefix[j]);
                }
            }
            assert(dedup_spec(s) == d);
        }
    }
}

/// De-duplicating an already de-duplicated list changes nothing.
pub proof fn lemma_dedup_idempotent(s: Seq<Seq<char>>)
    ensures
        dedup_spec(dedup_spec(s)) == dedup_spec(s),
    decreases s.len(),
{
    if s.len() == 0 {
        assert(dedup_spec(s) =~= Seq::<Seq<char>>::empty());
    } else {
        lemma_dedup_idempotent(s.drop_last());
        let prefix = dedup_spec(s.drop_last());
        if prefix.contains(s.last()) {
        } else {
            let d = prefix.push(s.last());
            assert(d.drop_last() =~= prefix);
            assert(d.last() == s.last());
            assert(dedup_spec(d) == d);
        }
    }
}

/// De-duplication never lengthens the list.
pub proof fn lemma_dedup_len(s: Seq<Seq<char>>)
    ensures
        dedup_spec(s).len() <= s.len(),
    decreases s.len(),
{
    if s.len() == 0 {
    } else {
        lemma_dedup_len(s.drop_last());
    }
}

/// The existence filter never lengthens the list.
proof fn lemma_filter_len(s: Seq<Seq<char>>, keep: Seq<bool>)
    ensures
        filter_spec(s, keep).len() <= s.len(),
    decreases s.len(),
{
    if s.len() == 0 {
    } else {
        lemma_filter_len(s.drop_last(), keep.drop_last());
    }
}

/// The full pass returns at most as many entries as it was given.
pub proof fn lemma_output_len(s: Seq<Seq<char>>, keep: Seq<bool>)
    ensures
        dedup_spec(filter_spec(s, keep)).len() <= s.len(),
{
    lemma_filter_len(s, keep);
    lemma_dedup_len(filter_spec(s, keep));
}

/// A subsequence of `b` is still a subsequence after one entry is appended
/// to `b`.
proof fn lemma_subseq_extend_right(a: Seq<Seq<char>>, b: Seq<Seq<char>>, x: Seq<char>)
    requires
        is_subseq_of(a, b),
    ensures
        is_subseq_of(a, b.push(x)),
    decreases b.len(), 1int,
{
    if a.len() == 0 {
    } else {
        assert(b.push(x).drop_last() =~= b);
        if a.last() == x {
            lemma_subseq_shrink_left(a, b);
        }
    }
}

/// Dropping the last entry of a subsequence leaves a subsequence.
proof fn lemma_subseq_shrink_left(a: Seq<Seq<char>>, b: Seq<Seq<char>>)
    requires
        is_subseq_of(a, b),
        a.len() > 0,
    ensures
        is_subseq_of(a.drop_last(), b),
    decreases b.len(), 0int,
{
    assert(b.len() > 0);
    if a.last() == b.last() {
        lemma_subseq_extend_right(a.drop_last(), b.drop_last(), b.last());
        assert(b.drop_last().push(b.last()) =~= b);
    } else {
        lemma_subseq_shrink_left(a, b.drop_last());
        if a.drop_last().len() == 0 {
        } else if a.drop_last().last() == b.last() {
            lemma_subseq_shrink_left(a.drop_last(), b.drop_last());
        } else {
        }
    }
}

/// The output of the full pass reads off the input in order: it is a
/// subsequence of the candidate list.
pub proof fn lemma_output_subseq(s: Seq<Seq<char>>, keep: Seq<bool>)
    requires
        s.len() == keep.len(),
    ensures
        is_subseq_of(dedup_spec(filter_spec(s, keep)), s),
    decreases s.len(),
{
    if s.len() == 0 {
    } else {
        lemma_output_subseq(s.drop_last(), keep.drop_last());
        let p = dedup_spec(filter_spec(s.drop_last(), keep.drop_last()));
        assert(s.drop_last().push(s.last()) =~= s);
        if !keep.last() {
            assert(filter_spec(s, keep) == filter_spec(s.drop_last(), keep.drop_last()));
            lemma_subseq_extend_right(p, s.drop_last(), s.last());
        } else {
            let f = filter_spec(s.drop_last(), keep.drop_last());
            assert(filter_spec(s, keep) == f.push(s.last()));
            assert(f.push(s.last()).drop_last() =~= f);
            assert(f.push(s.last()).last() == s.last());
            if p.contains(s.last()) {
                assert(dedup_spec(f.push(s.last())) == p);
                lemma_subseq_extend_right(p, s.drop_last(), s.last());
            } else {
                assert(dedup_spec(f.push(s.last())) == p.push(s.last()));
                let d = p.push(s.last());
                assert(d.drop_last() =~= p);
                assert(is_subseq_of(d, s));
            }
        }
    }
}

/// With every flag set, the existence filter is the identity.
proof fn lemma_filter_all_true(s: Seq<Seq<char>>, keep: Seq<bool>)
    requires
        keep.len() == s.len(),
        forall|i: int| 0 <= i < keep.len() ==> keep[i],
    ensures
        filter_spec(s, keep) == s,
    decreases s.len(),
{
    if s.len() == 0 {
        assert(filter_spec(s, keep) =~= s);
    } else {
        lemma_filter_all_true(s.drop_last(), keep.drop_last());
        assert(keep[keep.len() - 1]);
        assert(filter_spec(s, keep) =~= s);
    }
}

/// The plain de-duplication reads off the input in order.
pub proof fn lemma_dedup_subseq(s: Seq<Seq<char>>)
    ensures
        is_subseq_of(dedup_spec(s), s),
{
    let keep = Seq::new(s.len(), |i: int| true);
    lemma_filter_all_true(s, keep);
    lemma_output_subseq(s, keep);
}

/// A string always splits into at least one segment.
proof fn lemma_segments_len(s: Seq<char>, sep: char)
    ensures
        segments_spec(s, sep).len() >= 1,
    decreases s.len(),
{
    if s.len() == 0 {
    } else {
        lemma_segments_len(s.drop_last(), sep);
    }
}

/// Joining the segments of `s` gives back `s` exactly.
proof fn lemma_join_segments(s: Seq<char>, sep: char)
    ensures
        join_spec(segments_spec(s, sep), sep) == s,
    decreases s.len(),
{
    if s.len() == 0 {
        assert(join_spec(segments_spec(s, sep), sep) =~= s);
    } else {
        lemma_join_segments(s.drop_last(), sep);
        lemma_segments_len(s.drop_last(), sep);
        let rest = segments_spec(s.drop_last(), sep);
        assert(s.drop_last().push(s.last()) =~= s);
        if s.last() == sep {
            let segs = rest.push(Seq::<char>::empty());
            assert(segs.len() >= 2);
            assert(segs.drop_last() =~= rest);
            assert(segs.last() =~= Seq::<char>::empty());
            assert(join_spec(segs, sep) == join_spec(rest, sep) + seq![sep]
                + Seq::<char>::empty());
            assert(join_spec(segs, sep) =~= s);
        } else {
            let n = rest.len();
            let segs = rest.update(n - 1, rest.last().push(s.last()));
            if n == 1 {
                assert(segs.len() == 1);
                assert(join_spec(segs, sep) == segs[0]);
                assert(segs[0] == rest[0].push(s.last()));
                assert(join_spec(rest, sep) == rest[0]);
                assert(rest[0] == rest.last());
                assert(join_spec(segs, sep) =~= s);
            } else {
                assert(segs.len() == n);
                assert(segs.drop_last() =~= rest.drop_last());
                assert(segs.last() == rest.last().push(s.last()));
                assert(join_spec(segs, sep) == join_spec(rest.drop_last(), sep) + seq![sep]
                    + rest.last().push(s.last()));
                assert(join_spec(rest, sep) == join_spec(rest.drop_last(), sep) + seq![sep]
                    + rest.last());
                assert(join_spec(segs, sep) =~= s);
            }
        }
    }
}

/// Splitting and re-joining a raw value is the identity.
pub proof fn lemma_join_split(s: Seq<char>, sep: char)
    ensures
        join_spec(split_spec(s, sep), sep) == s,
{
    if s.len() == 0 {
        assert(join_spec(split_spec(s, sep), sep) =~= s);
    } else {
        lemma_join_segments(s, sep);
    }
}

/// No segment of a split holds the separator.
proof fn lemma_segments_sep_free(s: Seq<char>, sep: char)
    ensures
        all_sep_free(segments_spec(s, sep), sep),
    decreases s.len(),
{
    if s.len() == 0 {
        let segs = segments_spec(s, sep);
        assert forall|k: int| 0 <= k < segs.len() implies sep_free(segs[k], sep) by {
            assert(segs[k] =~= Seq::<char>::empty());
        }
    } else {
        lemma_segments_sep_free(s.drop_last(), sep);
        let rest = segments_spec(s.drop_last(), sep);
        let segs = segments_spec(s, sep);
        if s.last() == sep {
            assert forall|k: int| 0 <= k < segs.len() implies sep_free(segs[k], sep) by {
                if k < rest.len() {
                    assert(segs[k] == rest[k]);
                } else {
                    assert(segs[k] =~= Seq::<char>::empty());
                }
            }
        } else {
            let n = rest.len();
            lemma_segments_len(s.drop_last(), sep);
            assert(n >= 1);
            assert forall|k: int| 0 <= k < segs.len() implies sep_free(segs[k], sep) by {
                if k < n - 1 {
                    assert(segs[k] == rest[k]);
                } else {
                    assert(segs[k] == rest.last().push(s.last()));
                    assert(sep_free(rest[n - 1], sep));
                    assert(rest.last().push(s.last()).contains(sep) <==> s.last() == sep
                        || rest.last().contains(sep));
                }
            }
        }
    }
}

/// An entry of the de-duplicated list is an entry of the input list, so
/// separator-freedom carries over.
proof fn lemma_dedup_sep_free(s: Seq<Seq<char>>, sep: char)
    requires
        all_sep_free(s, sep),
    ensures
        all_sep_free(dedup_spec(s), sep),
{
    let d = dedup_spec(s);
    assert forall|k: int| 0 <= k < d.len() implies sep_free(d[k], sep) by {
        assert(d.contains(d[k]));
        lemma_dedup_contains(s, d[k]);
        let j = choose|j: int| 0 <= j < s.len() && s[j] == d[k];
        assert(sep_free(s[j], sep));
    }
}

/// A separator-free string is one single segment.
proof fn lemma_segments_single(x: Seq<char>, sep: char)
    requires
        sep_free(x, sep),
    ensures
        segments_spec(x, sep) == seq![x],
    decreases x.len(),
{
    if x.len() == 0 {
        assert(segments_spec(x, sep) =~= seq![x]);
    } else {
        assert(x[x.len() - 1] == x.last());
        if x.last() == sep {
            assert(x.contains(sep));
        }
        assert(sep_free(x.drop_last(), sep)) by {
            if x.drop_last().contains(sep) {
                let i = choose|i: int|
                    0 <= i < x.drop_last().len() && x.drop_last()[i] == sep;
                assert(x[i] == sep);
                assert(x.contains(sep));
            }
        }
        lemma_segments_single(x.drop_last(), sep);
        let rest = segments_spec(x.drop_last(), sep);
        assert(rest == seq![x.drop_last()]);
        assert(rest.last() == x.drop_last());
        assert(segments_spec(x, sep) == rest.update(0, x.drop_last().push(x.last())));
        assert(x.drop_last().push(x.last()) =~= x);
        assert(segments_spec(x, sep) =~= seq![x]);
    }
}

/// Appending a separator and then a separator-free tail appends exactly one
/// segment to the split.
proof fn lemma_segments_append(y: Seq<char>, u: Seq<char>, sep: char)
    requires
        sep_free(u, sep),
    ensures
        segments_spec(y + seq![sep] + u, sep) == segments_spec(y, sep).push(u),
    decreases u.len(),
{
    if u.len() == 0 {
        let z = y + seq![sep] + u;
        assert(z =~= y.push(sep));
        assert(y.push(sep).drop_last() =~= y);
        assert(y.push(sep).last() == sep);
        assert(segments_spec(z, sep) == segments_spec(y, sep).push(Seq::<char>::empty()));
        assert(u =~= Seq::<char>::empty());
    } else {
        let c = u.last();
        assert(u[u.len() - 1] == c);
        if c == sep {
            assert(u.contains(sep));
        }
        assert(sep_free(u.drop_last(), sep)) by {
            if u.drop_last().contains(sep) {
                let i = choose|i: int|
                    0 <= i < u.drop_last().len() && u.drop_last()[i] == sep;
                assert(u[i] == sep);
                assert(u.contains(sep));
            }
        }
        lemma_segments_append(y, u.drop_last(), sep);
        let z = y + seq![sep] + u;
        assert(z.len() > 0);
        assert(z.last() == c);
        assert(z.drop_last() =~= y + seq![sep] + u.drop_last());
        let rest = segments_spec(z.drop_last(), sep);
        assert(rest == segments_spec(y, sep).push(u.drop_last()));
        lemma_segments_len(y, sep);
        let n = rest.len();
        assert(n >= 2);
        assert(rest.last() == u.drop_last());
        assert(segments_spec(z, sep) == rest.update(n - 1, u.drop_last().push(c)));
        assert(u.drop_last().push(c) =~= u);
        assert(rest.update(n - 1, u.drop_last().push(c)) =~= segments_spec(y, sep).push(u));
    }
}

/// Splitting a join of separator-free entries gives the entries back.
proof fn lemma_segments_join(parts: Seq<Seq<char>>, sep: char)
    requires
        parts.len() >= 1,
        all_sep_free(parts, sep),
    ensures
        segments_spec(join_spec(parts, sep), sep) == parts,
    decreases parts.len(),
{
    if parts.len() == 1 {
        assert(join_spec(parts, sep) == parts[0]);
        assert(sep_free(parts[0], sep));
        lemma_segments_single(parts[0], sep);
        assert(seq![parts[0]] =~= parts);
    } else {
        assert forall|k: int| 0 <= k < parts.drop_last().len() implies sep_free(
            #[trigger] parts.drop_last()[k],
            sep,
        ) by {
            assert(parts.drop_last()[k] == parts[k]);
        }
        lemma_segments_join(parts.drop_last(), sep);
        assert(join_spec(parts, sep) == join_spec(parts.drop_last(), sep) + seq![sep]
            + parts.last());
        assert(sep_free(parts[parts.len() - 1], sep));
        lemma_segments_append(join_spec(parts.drop_last(), sep), parts.last(), sep);
        assert(segments_spec(join_spec(parts, sep), sep) == segments_spec(
            join_spec(parts.drop_last(), sep),
            sep,
        ).push(parts.last()));
        assert(parts.drop_last().push(parts.last()) =~= parts);
    }
}

/// A join of at least one entry is empty exactly when it joins one single
/// empty entry.
proof fn lemma_join_empty(parts: Seq<Seq<char>>, sep: char)
    requires
        parts.len() >= 1,
    ensures
        join_spec(parts, sep).len() == 0 <==> (parts.len() == 1 && parts[0].len() == 0),
{
    if parts.len() == 1 {
        assert(join_spec(parts, sep) == parts[0]);
    } else {
        assert(join_spec(parts, sep).len() == join_spec(parts.drop_last(), sep).len() + 1
            + parts.last().len());
    }
}

/// Running the tool on its own output changes nothing: splitting the
/// printed value, de-duplicating again and re-joining gives the same value.
pub proof fn lemma_pipeline_idempotent(s: Seq<char>, sep: char)
    ensures
        ({
            let out = join_spec(dedup_spec(split_spec(s, sep)), sep);
            join_spec(dedup_spec(split_spec(out, sep)), sep) == out
        }),
{
    let p = split_spec(s, sep);
    let d = dedup_spec(p);
    let out = join_spec(d, sep);
    if s.len() == 0 {
        assert(p =~= Seq::<Seq<char>>::empty());
        assert(d =~= Seq::<Seq<char>>::empty());
        assert(out =~= Seq::<char>::empty());
        assert(split_spec(out, sep) =~= Seq::<Seq<char>>::empty());
        assert(join_spec(dedup_spec(split_spec(out, sep)), sep) =~= out);
    } else {
        lemma_segments_len(s, sep);
        assert(p.len() >= 1);
        assert(d.len() >= 1) by {
            if dedup_spec(p.drop_last()).contains(p.last()) {
                let i = choose|i: int|
                    0 <= i < dedup_spec(p.drop_last()).len() && dedup_spec(p.drop_last())[i]
                        == p.last();
            }
        }
        lemma_segments_sep_free(s, sep);
        lemma_dedup_sep_free(p, sep);
        lemma_join_empty(d, sep);
        if out.len() == 0 {
            assert(split_spec(out, sep) =~= Seq::<Seq<char>>::empty());
            assert(dedup_spec(split_spec(out, sep)) =~= Seq::<Seq<char>>::empty());
            assert(join_spec(dedup_spec(split_spec(out, sep)), sep) =~= out);
        } else {
            lemma_segments_join(d, sep);
            assert(split_spec(out, sep) == segments_spec(out, sep));
            assert(segments_spec(out, sep) == d);
            lemma_dedup_idempotent(p);
            assert(dedup_spec(d) == d);
        }
    }
}

/// An empty raw value yields an empty candidate list and an empty output.
pub proof fn lemma_empty_input(sep: char)
    ensures
        split_spec(Seq::<char>::empty(), sep) == Seq::<Seq<char>>::empty(),
        join_spec(dedup_spec(split_spec(Seq::<char>::empty(), sep)), sep) == Seq::<
            char,
        >::empty(),
{
    assert(split_spec(Seq::<char>::empty(), sep) =~= Seq::<Seq<char>>::empty());
    assert(dedup_spec(Seq::<Seq<char>>::empty()) =~= Seq::<Seq<char>>::empty());
    assert(join_spec(Seq::<Seq<char>>::empty(), sep) =~= Seq::<char>::empty());
}

} // verus!
