//! Laws of paths: what joining, naming and decoding give.

use vstd::prelude::*;
use vstd::utf8::{
    char_is_scalar, char_u32_cast, decode_utf8, encode_utf8, encode_utf8_decode_utf8,
    encode_utf8_valid_utf8, valid_utf8,
};

use crate::export::export_place;
use crate::path::{
    beside, file_name_of, joined, lossy_text, root_name_of, strict_text_of, text_of, units_are_text,
    units_text, PartKind, PartView, TextView,
};

verus! {

/// Text is read as itself.
pub proof fn law_text_is_read_as_itself(text: Seq<char>)
    ensures
        text_of(TextView::Bytes(encode_utf8(text))) == text,
        strict_text_of(TextView::Bytes(encode_utf8(text))) == Some(text),
{
    encode_utf8_valid_utf8(text);
    encode_utf8_decode_utf8(text);
}

/// Bytes that are text are decoded; others are not taken for text, and are
/// replaced where they do not decode.
pub proof fn law_other_bytes_are_not_text(bytes: Seq<u8>)
    ensures
        valid_utf8(bytes) ==> strict_text_of(TextView::Bytes(bytes)) == Some(decode_utf8(bytes)),
        valid_utf8(bytes) ==> text_of(TextView::Bytes(bytes)) == decode_utf8(bytes),
        !valid_utf8(bytes) ==> strict_text_of(TextView::Bytes(bytes)) is None,
        !valid_utf8(bytes) ==> text_of(TextView::Bytes(bytes)) == lossy_text(bytes),
{
}

/// The UTF-16 units of a text.
pub open spec fn units_of(text: Seq<char>) -> Seq<u16>
    decreases text.len(),
{
    if text.len() == 0 {
        Seq::empty()
    } else {
        let code = text[0] as u32;
        let first = if code < 0x10000 {
            seq![code as u16]
        } else {
            seq![
                (0xd800 + (code - 0x10000) / 0x400) as u16,
                (0xdc00 + (code - 0x10000) % 0x400) as u16,
            ]
        };
        first + units_of(text.skip(1))
    }
}

/// Units behind those of a text are read after it.
proof fn lemma_text_then_units(text: Seq<char>, rest: Seq<u16>)
    ensures
        units_text(units_of(text) + rest) == text + units_text(rest),
        units_are_text(units_of(text) + rest) == units_are_text(rest),
    decreases text.len(),
{
    if text.len() == 0 {
        assert(units_of(text) + rest =~= rest);
        assert(text + units_text(rest) =~= units_text(rest));
    } else {
        let code = text[0] as u32;
        char_is_scalar(text[0]);
        char_u32_cast(text[0], code);
        let tail = text.skip(1);
        lemma_text_then_units(tail, rest);
        let all = units_of(text) + rest;
        assert(seq![text[0]] + (tail + units_text(rest)) =~= text + units_text(rest));
        if code < 0x10000 {
            assert(all =~= seq![code as u16] + (units_of(tail) + rest));
            assert(all.skip(1) =~= units_of(tail) + rest);
            assert(all[0] as char == text[0]);
        } else {
            let high = (0xd800 + (code - 0x10000) / 0x400) as u16;
            let low = (0xdc00 + (code - 0x10000) % 0x400) as u16;
            assert(all =~= seq![high, low] + (units_of(tail) + rest));
            assert(all.skip(2) =~= units_of(tail) + rest);
            assert(0x10000 + (high - 0xd800) * 0x400 + (low - 0xdc00) == code);
        }
    }
}

/// Text in 16-bit units is read as itself.
pub proof fn law_units_of_text_are_read_back(text: Seq<char>)
    ensures
        units_text(units_of(text)) == text,
        units_are_text(units_of(text)),
        text_of(TextView::Units(units_of(text))) == text,
        strict_text_of(TextView::Units(units_of(text))) == Some(text),
{
    lemma_text_then_units(text, Seq::empty());
    assert(units_of(text) + Seq::empty() =~= units_of(text));
    assert(text + Seq::<char>::empty() =~= text);
}

/// Half of a surrogate pair that stands alone between texts becomes one
/// replacement character, and makes the whole no text.
pub proof fn law_lone_surrogates_are_replaced(before: Seq<char>, unit: u16, after: Seq<u16>)
    requires
        0xd800 <= unit <= 0xdfff,
        unit < 0xdc00 ==> after.len() == 0 || !(0xdc00 <= after[0] <= 0xdfff),
    ensures
        units_text(units_of(before) + (seq![unit] + after)) == before + (seq!['\u{fffd}']
            + units_text(after)),
        strict_text_of(TextView::Units(units_of(before) + (seq![unit] + after))) is None,
{
    let rest = seq![unit] + after;
    lemma_text_then_units(before, rest);
    assert(rest.skip(1) =~= after);
    assert(rest[0] == unit);
    if after.len() > 0 {
        assert(rest[1] == after[0]);
    }
}

/// A name that is joined on stands at the end of the path, behind all that was
/// there before, and can be read back.
pub proof fn law_joined_name_stands_last(base: Seq<PartView>, kind: PartKind, name: Seq<char>)
    requires
        kind == PartKind::Normal || kind == PartKind::ParentDir,
    ensures
        joined(base, kind, name).len() == base.len() + 1,
        forall|i: int| 0 <= i < base.len() ==> #[trigger] joined(base, kind, name)[i] == base[i],
        joined(base, kind, name).last().kind == kind,
        joined(base, kind, name).last().text is Bytes,
        text_of(joined(base, kind, name).last().text) == name,
        strict_text_of(joined(base, kind, name).last().text) == Some(name),
{
    law_text_is_read_as_itself(name);
}

/// A root or a prefix that is joined on replaces the path, and a root keeps the
/// prefix before it. The current directory shows only where a path begins.
pub proof fn law_joined_root_replaces(base: Seq<PartView>, name: Seq<char>)
    ensures
        ({
            let root = joined(base, PartKind::RootDir, name);
            let prefix = joined(base, PartKind::Prefix, name);
            let here = joined(base, PartKind::CurDir, name);
            let keeps = base.len() > 0 && base[0].kind == PartKind::Prefix;
            &&& root.last().kind == PartKind::RootDir
            &&& text_of(root.last().text) == name
            &&& root.len() == (if keeps {
                2int
            } else {
                1int
            })
            &&& keeps ==> root[0] == base[0]
            &&& prefix.len() == 1
            &&& prefix[0].kind == PartKind::Prefix
            &&& text_of(prefix[0].text) == name
            &&& base.len() == 0 || (base.len() == 1 && keeps) ==> {
                &&& here.len() == base.len() + 1
                &&& here.last().kind == PartKind::CurDir
                &&& text_of(here.last().text) == name
                &&& base.len() == 1 ==> here[0] == base[0]
            }
            &&& base.len() > 1 || (base.len() == 1 && !keeps) ==> here == base
        }),
{
    law_text_is_read_as_itself(name);
}

/// A path has the file name that was joined on last; one that does not end in an
/// ordinary name, or whose last name is not text, has none.
pub proof fn law_file_name_is_the_last_name(base: Seq<PartView>, name: Seq<char>, path: Seq<PartView>)
    ensures
        file_name_of(base.push(PartView { kind: PartKind::Normal, text: TextView::Bytes(
            encode_utf8(name),
        ) })) == Some(name),
        path.len() == 0 ==> file_name_of(path) is None,
        path.len() > 0 && path.last().kind != PartKind::Normal ==> file_name_of(path) is None,
        path.len() > 0 && (path.last().text matches TextView::Bytes(bytes) && !valid_utf8(bytes))
            ==> file_name_of(path) is None,
        path.len() > 0 && (path.last().text matches TextView::Units(units) && !units_are_text(units))
            ==> file_name_of(path) is None,
        file_name_of(path) matches Some(text) ==> path.len() > 0 && path.last().kind
            == PartKind::Normal && text == text_of(path.last().text),
{
    law_text_is_read_as_itself(name);
}

/// A scan shows its root under the file name of its path, or as a dot.
pub proof fn law_root_is_called_by_its_file_name(path: Seq<PartView>)
    ensures
        file_name_of(path) is Some ==> root_name_of(path) == file_name_of(path).unwrap(),
        file_name_of(path) is None ==> root_name_of(path) == seq!['.'],
{
    reveal_strlit(".");
    assert("."@ =~= seq!['.']);
}

/// What stands beside a path has the name that was asked for, in the directory of
/// that path; a path that does not end in an ordinary name is that directory.
pub proof fn law_beside_is_in_the_same_directory(path: Seq<PartView>, name: Seq<char>)
    ensures
        file_name_of(beside(path, name)) == Some(name),
        ({
            let dir = if path.len() > 0 && path.last().kind == PartKind::Normal {
                path.len() - 1
            } else {
                path.len() as int
            };
            &&& beside(path, name).len() == dir + 1
            &&& forall|i: int| 0 <= i < dir ==> #[trigger] beside(path, name)[i] == path[i]
        }),
        file_name_of(export_place(path)) == Some("ferris-scan-export.csv"@),
        export_place(path) == beside(path, "ferris-scan-export.csv"@),
{
    law_text_is_read_as_itself(name);
    law_text_is_read_as_itself("ferris-scan-export.csv"@);
}

} // verus!
