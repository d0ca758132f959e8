//! Splitting a raw path-list value into entries, and joining entries back.

use vstd::prelude::*;

use crate::model::join_spec;
use crate::model::segments_spec;
use crate::model::split_spec;

verus! {

/// Relies on String::push: it appends the given character to the end of the
/// string, documented behaviour of std.
pub assume_specification [ String::push ](s: &mut String, ch: char)
    ensures
        final(s)@ == old(s)@.push(ch),
;

/// Split a raw path-list value on `sep`, keeping empty segments; the empty
/// string yields no entries at all.
pub fn split_list(s: &str, sep: char) -> (parts: Vec<String>)
    ensures
        parts.deep_view() == split_spec(s@, sep),
{
    let n = s.unicode_len();
    let mut parts: Vec<String> = Vec::new();
    if n == 0 {
        return parts;
    }
    let mut cur = String::new();
    let mut i: usize = 0;
    while i < n
        invariant
            i <= n,
            n == s@.len(),
            segments_spec(s@.take(i as int), sep) == parts.deep_view().push(cur@),
        decreases n - i,
    {
        let c = s.get_char(i);
        proof {
            assert(s@.take(i + 1).drop_last() =~= s@.take(i as int));
            assert(s@.take(i + 1).last() == s@[i as int]);
        }
        if c == sep {
            let ghost old_parts = parts.deep_view();
            let ghost old_cur = cur@;
            parts.push(cur);
            cur = String::new();
            proof {
                assert(parts.deep_view() =~= old_parts.push(old_cur));
                assert(segments_spec(s@.take(i + 1), sep) =~= parts.deep_view().push(cur@));
            }
        } else {
            proof {
                let before = parts.deep_view().push(cur@);
                assert(before.len() >= 1);
                assert(before.update(before.len() - 1, before.last().push(c)) =~= parts.deep_view().push(cur@.push(c)));
            }
            cur.push(c);
        }
        i += 1;
    }
    proof {
        assert(s@.take(n as int) =~= s@);
    }
    let ghost old_parts = parts.deep_view();
    let ghost old_cur = cur@;
    parts.push(cur);
    proof {
        assert(parts.deep_view() =~= old_parts.push(old_cur));
    }
    parts
}

/// Join entries with `sep` between consecutive ones, the inverse of
/// [`split_list`] for entries free of the separator.
pub fn join_list(parts: &Vec<String>, sep: char) -> (out: String)
    ensures
        out@ == join_spec(parts.deep_view(), sep),
{
    let mut out = String::new();
    let mut i: usize = 0;
    while i < parts.len()
        invariant
            i <= parts@.len(),
            out@ == join_spec(parts.deep_view().take(i as int), sep),
        decreases parts@.len() - i,
    {
        proof {
            assert(parts.deep_view().take(i + 1).drop_last() =~= parts.deep_view().take(i as int));
            assert(parts.deep_view().take(i + 1).last() == parts.deep_view()[i as int]);
        }
        if i > 0 {
            out.push(sep);
        }
        out.append(parts[i].as_str());
        proof {
            if i == 0 {
                assert(out@ =~= join_spec(parts.deep_view().take(1), sep));
            } else {
                assert(out@ =~= join_spec(parts.deep_view().take(i + 1), sep));
            }
        }
        i += 1;
    }
    proof {
        assert(parts.deep_view().take(parts@.len() as int) =~= parts.deep_view());
    }
    out
}

} // verus!
