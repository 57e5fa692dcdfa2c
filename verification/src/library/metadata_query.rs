//! Reading back the tags that the catalog stores joined in one text.
use crate::text::string_of;
use vstd::prelude::*;

verus! {

/// The separator between stored tags (the unit separator, U+001F).
pub open spec fn tag_separator() -> char {
    '\u{1f}'
}

/// The tags read so far, and the tag being read.
pub open spec fn tag_state(s: Seq<char>) -> (Seq<Seq<char>>, Seq<char>)
    decreases s.len(),
{
    if s.len() == 0 {
        (Seq::empty(), Seq::empty())
    } else {
        let prev = tag_state(s.drop_last());
        if s.last() == tag_separator() {
            (if prev.1.len() > 0 {
                prev.0.push(prev.1)
            } else {
                prev.0
            }, Seq::empty())
        } else {
            (prev.0, prev.1.push(s.last()))
        }
    }
}

/// The non-empty pieces of `s` between separators, in order.
pub open spec fn tags_of(s: Seq<char>) -> Seq<Seq<char>> {
    let st = tag_state(s);
    if st.1.len() > 0 {
        st.0.push(st.1)
    } else {
        st.0
    }
}

/// The tags stored in `value`: its pieces between unit separators, without
/// empty ones.
pub fn split_tags(value: &str) -> (r: Vec<String>)
    ensures
        r@.map_values(|t: String| t@) == tags_of(value@),
{
    let mut done: Vec<String> = Vec::new();
    let mut cur: Vec<char> = Vec::new();
    let ghost all = value@;
    let mut i: usize = 0;
    let chars = crate::text::chars_of(value);
    while i < chars.len()
        invariant
            i <= chars.len(),
            chars@ == all,
            (done@.map_values(|t: String| t@), cur@) == tag_state(all.take(i as int)),
        decreases chars.len() - i,
    {
        proof {
            let t = all.take(i as int + 1);
            assert(t.drop_last() =~= all.take(i as int));
            assert(t.last() == all[i as int]);
        }
        let c = chars[i];
        if c == '\u{1f}' {
            if cur.len() > 0 {
                let ghost before = done@.map_values(|t: String| t@);
                let piece = string_of(cur.as_slice());
                done.push(piece);
                assert(done@.map_values(|t: String| t@) =~= before.push(cur@));
            }
            cur = Vec::new();
        } else {
            cur.push(c);
        }
        i += 1;
    }
    assert(all.take(chars.len() as int) =~= all);
    if cur.len() > 0 {
        let ghost before = done@.map_values(|t: String| t@);
        let piece = string_of(cur.as_slice());
        done.push(piece);
        assert(done@.map_values(|t: String| t@) =~= before.push(cur@));
    }
    done
}

} // verus!
