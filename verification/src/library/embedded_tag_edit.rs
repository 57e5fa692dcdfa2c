//! What an edited field does to a file's tag, and how the rewritten tag is
//! checked.
use crate::text::{chars_of, str_eq};
use vstd::prelude::*;

verus! {

/// A tag field with its own accessor.
#[derive(Clone, Copy, PartialEq, Eq, Structural, Debug)]
pub enum TagField {
    Title,
    Artist,
    Album,
    Genre,
    Comment,
    Year,
    TrackNumber,
}

/// A tag field written as a free-form item.
#[derive(Clone, Copy, PartialEq, Eq, Structural, Debug)]
pub enum ItemField {
    AlbumArtist,
    Composer,
}

/// One change to a tag.
#[derive(PartialEq, Eq, Debug)]
pub enum TagEdit {
    /// Remove the field.
    Remove(TagField),
    /// Set a text field.
    SetText(TagField, String),
    /// Set a number field (year, track number).
    SetNumber(TagField, u32),
    /// Replace an item by this text; an empty text only removes it.
    ReplaceItem(ItemField, String),
    /// The field is not written into files.
    Ignore,
}

/// The value of a string of ASCII digits.
pub open spec fn digits_value(s: Seq<char>) -> int
    decreases s.len(),
{
    if s.len() == 0 {
        0
    } else {
        digits_value(s.drop_last()) * 10 + (s.last() as int - '0' as int)
    }
}

pub open spec fn all_digits(s: Seq<char>) -> bool {
    forall|i: int| 0 <= i < s.len() ==> '0' <= #[trigger] s[i] <= '9'
}

/// What `str::parse::<u32>` accepts: an optional `+`, then one or more ASCII
/// digits whose value fits in `u32`.
pub open spec fn parsed_u32(s: Seq<char>) -> Option<u32> {
    let d = if s.len() > 0 && s[0] == '+' {
        s.drop_first()
    } else {
        s
    };
    if d.len() > 0 && all_digits(d) && digits_value(d) <= u32::MAX {
        Some(digits_value(d) as u32)
    } else {
        None
    }
}

/// A tag change, with its texts as character sequences.
pub enum EditSpec {
    Remove(TagField),
    SetText(TagField, Seq<char>),
    SetNumber(TagField, u32),
    ReplaceItem(ItemField, Seq<char>),
    Ignore,
}

pub open spec fn edit_view(e: TagEdit) -> EditSpec {
    match e {
        TagEdit::Remove(f) => EditSpec::Remove(f),
        TagEdit::SetText(f, t) => EditSpec::SetText(f, t@),
        TagEdit::SetNumber(f, n) => EditSpec::SetNumber(f, n),
        TagEdit::ReplaceItem(f, t) => EditSpec::ReplaceItem(f, t@),
        TagEdit::Ignore => EditSpec::Ignore,
    }
}

pub open spec fn text_field(f: Seq<char>) -> Option<TagField> {
    if f == "title"@ {
        Some(TagField::Title)
    } else if f == "artist"@ {
        Some(TagField::Artist)
    } else if f == "album"@ {
        Some(TagField::Album)
    } else if f == "genre"@ {
        Some(TagField::Genre)
    } else if f == "comment"@ {
        Some(TagField::Comment)
    } else {
        None
    }
}

/// The change that writing `value` into field `f` makes: an empty value
/// removes a text or number field; year and track number must read as
/// numbers (`library_metadata_write_failed`); album artist and composer are
/// items, replaced by the value (an empty one only removes them); other
/// fields are not written into files.
pub open spec fn edit_of(f: Seq<char>, value: Seq<char>) -> Result<EditSpec, Seq<char>> {
    if text_field(f) is Some {
        if value.len() == 0 {
            Ok(EditSpec::Remove(text_field(f)->0))
        } else {
            Ok(EditSpec::SetText(text_field(f)->0, value))
        }
    } else if f == "year"@ || f == "track_number"@ {
        let field = if f == "year"@ {
            TagField::Year
        } else {
            TagField::TrackNumber
        };
        if value.len() == 0 {
            Ok(EditSpec::Remove(field))
        } else {
            match parsed_u32(value) {
                Some(n) => Ok(EditSpec::SetNumber(field, n)),
                None => Err("library_metadata_write_failed"@),
            }
        }
    } else if f == "album_artist"@ {
        Ok(EditSpec::ReplaceItem(ItemField::AlbumArtist, value))
    } else if f == "composer"@ {
        Ok(EditSpec::ReplaceItem(ItemField::Composer, value))
    } else {
        Ok(EditSpec::Ignore)
    }
}

/// Reads a decimal `u32` as `str::parse` does.
pub fn parse_u32(s: &str) -> (r: Option<u32>)
    ensures
        r == parsed_u32(s@),
{
    let v = chars_of(s);
    let start: usize = if v.len() > 0 && v[0] == '+' {
        1
    } else {
        0
    };
    let ghost d = v@.skip(start as int);
    assert(d =~= (if s@.len() > 0 && s@[0] == '+' {
        s@.drop_first()
    } else {
        s@
    }));
    if start == v.len() {
        return None;
    }
    let mut value: u64 = 0;
    let mut i: usize = start;
    while i < v.len()
        invariant
            start <= i <= v.len(),
            v@ == s@,
            d == v@.skip(start as int),
            d == (if s@.len() > 0 && s@[0] == '+' {
                s@.drop_first()
            } else {
                s@
            }),
            d.len() > 0,
            all_digits(v@.subrange(start as int, i as int)),
            value == digits_value(v@.subrange(start as int, i as int)),
            value <= u32::MAX,
        decreases v.len() - i,
    {
        let c = v[i];
        if c < '0' || c > '9' {
            assert(d[i - start] == c);
            return None;
        }
        let digit = (c as u32 - '0' as u32) as u64;
        proof {
            let t = v@.subrange(start as int, i + 1);
            assert(t.drop_last() =~= v@.subrange(start as int, i as int));
            assert(t.last() == c);
        }
        value = value * 10 + digit;
        i += 1;
        if value > u32::MAX as u64 {
            proof {
                if all_digits(d) {
                    lemma_digits_grow(d, (i - start) as int);
                    assert(v@.subrange(start as int, i as int) =~= d.take(i - start));
                }
            }
            return None;
        }
    }
    assert(v@.subrange(start as int, v.len() as int) =~= d);
    Some(value as u32)
}

proof fn lemma_digits_grow(d: Seq<char>, k: int)
    requires
        0 <= k <= d.len(),
        all_digits(d),
    ensures
        digits_value(d.take(k)) <= digits_value(d),
    decreases d.len(),
{
    if k < d.len() {
        assert(d.drop_last().take(k) =~= d.take(k));
        assert(all_digits(d.drop_last())) by {
            assert forall|i: int| 0 <= i < d.drop_last().len() implies '0' <= #[trigger] d.drop_last()[i]
                <= '9' by {
                assert(d.drop_last()[i] == d[i]);
            }
        }
        lemma_digits_grow(d.drop_last(), k);
        lemma_digits_nonneg(d.drop_last());
        assert(d.last() == d[d.len() - 1]);
    } else {
        assert(d.take(k) =~= d);
    }
}

proof fn lemma_digits_nonneg(d: Seq<char>)
    requires
        all_digits(d),
    ensures
        digits_value(d) >= 0,
    decreases d.len(),
{
    if d.len() > 0 {
        assert(all_digits(d.drop_last())) by {
            assert forall|i: int| 0 <= i < d.drop_last().len() implies '0' <= #[trigger] d.drop_last()[i]
                <= '9' by {
                assert(d.drop_last()[i] == d[i]);
            }
        }
        lemma_digits_nonneg(d.drop_last());
        assert(d.last() == d[d.len() - 1]);
    }
}

/// The change that writing `value` into `field` makes to a tag.
pub fn edit_for(field: &str, value: &str) -> (r: Result<TagEdit, String>)
    ensures
        match edit_of(field@, value@) {
            Ok(e) => r is Ok && edit_view(r->Ok_0) == e,
            Err(m) => r is Err && r->Err_0@ == m,
        },
{
    proof {
        reveal_strlit("title");
        reveal_strlit("artist");
        reveal_strlit("album");
        reveal_strlit("genre");
        reveal_strlit("comment");
        reveal_strlit("year");
        reveal_strlit("track_number");
        reveal_strlit("album_artist");
        reveal_strlit("composer");
    }
    let empty = value.is_empty();
    let text = if str_eq(field, "title") {
        Some(TagField::Title)
    } else if str_eq(field, "artist") {
        Some(TagField::Artist)
    } else if str_eq(field, "album") {
        Some(TagField::Album)
    } else if str_eq(field, "genre") {
        Some(TagField::Genre)
    } else if str_eq(field, "comment") {
        Some(TagField::Comment)
    } else {
        None
    };
    if let Some(f) = text {
        return if empty {
            Ok(TagEdit::Remove(f))
        } else {
            Ok(TagEdit::SetText(f, value.to_owned()))
        };
    }
    let number = if str_eq(field, "year") {
        Some(TagField::Year)
    } else if str_eq(field, "track_number") {
        Some(TagField::TrackNumber)
    } else {
        None
    };
    if let Some(f) = number {
        if empty {
            return Ok(TagEdit::Remove(f));
        }
        return match parse_u32(value) {
            Some(n) => Ok(TagEdit::SetNumber(f, n)),
            None => Err("library_metadata_write_failed".to_owned()),
        };
    }
    if str_eq(field, "album_artist") {
        return Ok(TagEdit::ReplaceItem(ItemField::AlbumArtist, value.to_owned()));
    }
    if str_eq(field, "composer") {
        return Ok(TagEdit::ReplaceItem(ItemField::Composer, value.to_owned()));
    }
    Ok(TagEdit::Ignore)
}

/// The rewritten tag holds what was written: the field's value when one was
/// given, no value when the field was cleared.
pub fn verify_value(actual: Option<&str>, value: &str) -> (r: Result<(), String>)
    ensures
        r is Ok <==> (if value@.len() == 0 {
            actual is None
        } else {
            actual is Some && actual->0@ == value@
        }),
        r is Err ==> r->Err_0@ == "library_metadata_write_verify_failed"@,
{
    let ok = match actual {
        None => value.is_empty(),
        Some(a) => !value.is_empty() && str_eq(a, value),
    };
    if ok {
        Ok(())
    } else {
        Err("library_metadata_write_verify_failed".to_owned())
    }
}

} // verus!
