//! File system paths as the scanner reads them: a list of components.
//!
//! Every rule of the library about paths (equality, prefixes, joining a name)
//! looks at whole components, so a path is held as its components in order.
//! A component keeps the platform's own text, which need not be valid Unicode.

use vstd::prelude::*;
use vstd::string::StrSliceExecFns;
use vstd::utf8::{decode_utf8, encode_utf8, valid_utf8};

use crate::text::text_view;

verus! {

/// What a path component is.
#[derive(Debug, Clone, Copy, PartialEq, Eq, Structural)]
pub enum PartKind {
    /// A drive or share prefix, such as `C:`; a drive letter is held in upper case.
    Prefix,
    /// The root directory.
    RootDir,
    /// The current directory, `.`.
    CurDir,
    /// The parent directory, `..`.
    ParentDir,
    /// An ordinary file or directory name.
    Normal,
}

/// The text of a component, as the platform holds it.
#[derive(Debug, PartialEq, Eq)]
pub enum PartText {
    /// Bytes: all text in UTF-8, and any name on a platform where names are bytes.
    Bytes(Vec<u8>),
    /// 16-bit units that are not text, on a platform where names are such units.
    Units(Vec<u16>),
}

/// The mathematical value of a `PartText`.
#[verifier::ext_equal]
pub enum TextView {
    Bytes(Seq<u8>),
    Units(Seq<u16>),
}

impl View for PartText {
    type V = TextView;

    open spec fn view(&self) -> TextView {
        match *self {
            PartText::Bytes(bytes) => TextView::Bytes(bytes@),
            PartText::Units(units) => TextView::Units(units@),
        }
    }
}

/// One component of a path.
#[derive(Debug, PartialEq, Eq)]
pub struct PathPart {
    pub kind: PartKind,
    pub text: PartText,
}

/// The mathematical value of a `PathPart`.
#[verifier::ext_equal]
pub struct PartView {
    pub kind: PartKind,
    pub text: TextView,
}

impl View for PathPart {
    type V = PartView;

    open spec fn view(&self) -> PartView {
        PartView { kind: self.kind, text: self.text@ }
    }
}

/// A path, component by component.
#[derive(Debug, PartialEq, Eq)]
pub struct ScanPath {
    pub parts: Vec<PathPart>,
}

impl View for ScanPath {
    type V = Seq<PartView>;

    open spec fn view(&self) -> Seq<PartView> {
        Seq::new(self.parts@.len(), |i: int| self.parts@[i]@)
    }
}

/// The text that `String::from_utf8_lossy` makes of bytes that are not valid UTF-8.
pub uninterp spec fn lossy_text(bytes: Seq<u8>) -> Seq<char>;

/// Whether a unit is the first half of a surrogate pair.
pub open spec fn is_high(unit: u16) -> bool {
    0xd800 <= unit <= 0xdbff
}

/// Whether a unit is the second half of a surrogate pair.
pub open spec fn is_low(unit: u16) -> bool {
    0xdc00 <= unit <= 0xdfff
}

/// Whether UTF-16 units begin with both halves of a surrogate pair.
pub open spec fn starts_with_pair(units: Seq<u16>) -> bool {
    units.len() > 1 && is_high(units[0]) && is_low(units[1])
}

/// The characters of UTF-16 units, with a replacement character for each half of
/// a surrogate pair that stands alone.
pub open spec fn units_text(units: Seq<u16>) -> Seq<char>
    decreases units.len(),
{
    if units.len() == 0 {
        Seq::empty()
    } else if starts_with_pair(units) {
        let code = 0x10000 + (units[0] - 0xd800) * 0x400 + (units[1] - 0xdc00);
        seq![code as char] + units_text(units.skip(2))
    } else if is_high(units[0]) || is_low(units[0]) {
        seq!['\u{fffd}'] + units_text(units.skip(1))
    } else {
        seq![units[0] as char] + units_text(units.skip(1))
    }
}

/// Whether UTF-16 units are text: no half of a surrogate pair stands alone.
pub open spec fn units_are_text(units: Seq<u16>) -> bool
    decreases units.len(),
{
    if units.len() == 0 {
        true
    } else if starts_with_pair(units) {
        units_are_text(units.skip(2))
    } else {
        !is_high(units[0]) && !is_low(units[0]) && units_are_text(units.skip(1))
    }
}

/// The text of a component: its own characters where it is text, and its lossy
/// decoding otherwise.
pub open spec fn text_of(text: TextView) -> Seq<char> {
    match text {
        TextView::Bytes(bytes) => if valid_utf8(bytes) {
            decode_utf8(bytes)
        } else {
            lossy_text(bytes)
        },
        TextView::Units(units) => units_text(units),
    }
}

/// The characters of a component that is text.
pub open spec fn strict_text_of(text: TextView) -> Option<Seq<char>> {
    match text {
        TextView::Bytes(bytes) => if valid_utf8(bytes) {
            Some(decode_utf8(bytes))
        } else {
            None
        },
        TextView::Units(units) => if units_are_text(units) {
            Some(units_text(units))
        } else {
            None
        },
    }
}

/// Calls `String::from_utf8_lossy`: bytes that are valid UTF-8 decode to their
/// own characters; what becomes of other bytes (replacement characters stand in
/// for the invalid sequences) is named, not spelled out.
#[verifier::external_body]
fn decode_lossy(bytes: &Vec<u8>) -> (text: String)
    ensures
        valid_utf8(bytes@) ==> text@ == decode_utf8(bytes@),
        !valid_utf8(bytes@) ==> text@ == lossy_text(bytes@),
{
    String::from_utf8_lossy(bytes).into_owned()
}

/// Calls `std::str::from_utf8`: it succeeds exactly on valid UTF-8 and then
/// yields the characters that the bytes encode.
#[verifier::external_body]
fn decode_strict(bytes: &Vec<u8>) -> (text: Option<String>)
    ensures
        text is Some <==> valid_utf8(bytes@),
        text matches Some(t) ==> t@ == decode_utf8(bytes@),
{
    std::str::from_utf8(bytes).ok().map(String::from)
}

/// Calls `String::from_utf16_lossy`: pairs of surrogates and other units become
/// their characters, and each unpaired surrogate a replacement character.
#[verifier::external_body]
fn decode_units(units: &Vec<u16>) -> (text: String)
    ensures
        text@ == units_text(units@),
{
    String::from_utf16_lossy(units)
}

/// Calls `String::from_utf16`: it succeeds exactly where no surrogate is
/// unpaired, and then yields the characters that the units encode.
#[verifier::external_body]
fn decode_units_strict(units: &Vec<u16>) -> (text: Option<String>)
    ensures
        text is Some <==> units_are_text(units@),
        text matches Some(t) ==> t@ == units_text(units@),
{
    String::from_utf16(units).ok()
}

/// The path that joining one more component onto `base` gives.
///
/// A name goes at the end. A root replaces everything but a prefix, a prefix
/// replaces everything, and the current directory only shows at the start.
/// The new component's text is `name` in UTF-8.
pub open spec fn joined(base: Seq<PartView>, kind: PartKind, name: Seq<char>) -> Seq<PartView> {
    let part = PartView { kind, text: TextView::Bytes(encode_utf8(name)) };
    match kind {
        PartKind::Prefix => seq![part],
        PartKind::RootDir => if base.len() > 0 && base[0].kind == PartKind::Prefix {
            seq![base[0], part]
        } else {
            seq![part]
        },
        PartKind::CurDir => if base.len() == 0 || (base.len() == 1 && base[0].kind
            == PartKind::Prefix) {
            base.push(part)
        } else {
            base
        },
        PartKind::ParentDir => base.push(part),
        PartKind::Normal => base.push(part),
    }
}

/// The text of the last component of a path, if that is an ordinary name and is text.
pub open spec fn file_name_of(path: Seq<PartView>) -> Option<Seq<char>> {
    if path.len() > 0 && path.last().kind == PartKind::Normal {
        strict_text_of(path.last().text)
    } else {
        None
    }
}

/// The name under which a scan shows its root: the file name of the path, and
/// `.` where it has none.
pub open spec fn root_name_of(path: Seq<PartView>) -> Seq<char> {
    match file_name_of(path) {
        Some(name) => name,
        None => "."@,
    }
}

/// The path of an entry `name` beside the one at `path`: in the same directory
/// where `path` ends in an ordinary name, and below `path` otherwise.
pub open spec fn beside(path: Seq<PartView>, name: Seq<char>) -> Seq<PartView> {
    if path.len() > 0 && path.last().kind == PartKind::Normal {
        joined(path.drop_last(), PartKind::Normal, name)
    } else {
        joined(path, PartKind::Normal, name)
    }
}

impl Clone for PartText {
    fn clone(&self) -> (r: Self)
        ensures
            r@ == self@,
    {
        match self {
            PartText::Bytes(bytes) => {
                let copy = bytes.clone();
                assert(copy@ =~= bytes@);
                PartText::Bytes(copy)
            },
            PartText::Units(units) => {
                let copy = units.clone();
                assert(copy@ =~= units@);
                PartText::Units(copy)
            },
        }
    }
}

impl PartText {
    /// Whether two texts are the same.
    pub fn same(&self, other: &PartText) -> (r: bool)
        ensures
            r == (self@ == other@),
    {
        match (self, other) {
            (PartText::Bytes(a), PartText::Bytes(b)) => {
                let r = *a == *b;
                assert(r ==> a@ =~= b@);
                r
            },
            (PartText::Units(a), PartText::Units(b)) => {
                let r = *a == *b;
                assert(r ==> a@ =~= b@);
                r
            },
            _ => false,
        }
    }

    /// The text, if it is text.
    pub fn strict(&self) -> (r: Option<String>)
        ensures
            text_view(r) == strict_text_of(self@),
    {
        match self {
            PartText::Bytes(bytes) => decode_strict(bytes),
            PartText::Units(units) => decode_units_strict(units),
        }
    }
}

impl Clone for PathPart {
    fn clone(&self) -> (r: Self)
        ensures
            r@ == self@,
    {
        PathPart { kind: self.kind, text: self.text.clone() }
    }
}

impl PathPart {
    /// A component whose name the platform holds in 16-bit units.
    pub fn from_units(kind: PartKind, units: Vec<u16>) -> (r: Self)
        ensures
            r@ == (PartView {
                kind,
                text: if units_are_text(units@) {
                    TextView::Bytes(encode_utf8(units_text(units@)))
                } else {
                    TextView::Units(units@)
                },
            }),
    {
        let text = match decode_units_strict(&units) {
            Some(text) => PartText::Bytes(text.as_str().as_bytes_vec()),
            None => PartText::Units(units),
        };
        PathPart { kind, text }
    }

    /// Whether two components are the same.
    pub fn same(&self, other: &PathPart) -> (r: bool)
        ensures
            r == (self@ == other@),
    {
        self.kind == other.kind && self.text.same(&other.text)
    }

    /// The component's text, with replacement characters for what is not text.
    pub fn name(&self) -> (r: String)
        ensures
            r@ == text_of(self@.text),
    {
        match &self.text {
            PartText::Bytes(bytes) => decode_lossy(bytes),
            PartText::Units(units) => decode_units(units),
        }
    }
}

impl Clone for ScanPath {
    fn clone(&self) -> (r: Self)
        ensures
            r@ == self@,
    {
        self.from_part(0)
    }
}

impl ScanPath {
    /// The path with no components.
    pub fn empty() -> (r: Self)
        ensures
            r@ == Seq::<PartView>::empty(),
    {
        let r = ScanPath { parts: Vec::new() };
        assert(r@ =~= Seq::<PartView>::empty());
        r
    }

    /// Whether two paths have the same components.
    pub fn same(&self, other: &ScanPath) -> (r: bool)
        ensures
            r == (self@ == other@),
    {
        let r = self.parts.len() == other.parts.len() && self.starts_with(other);
        assert(r ==> self@ =~= other@);
        assert(self@ == other@ ==> self@.subrange(0, self@.len() as int) =~= other@);
        r
    }

    /// Whether the components of `base` are the first components of this path.
    pub fn starts_with(&self, base: &ScanPath) -> (r: bool)
        ensures
            r == base@.is_prefix_of(self@),
    {
        if base.parts.len() > self.parts.len() {
            return false;
        }
        let mut i: usize = 0;
        while i < base.parts.len()
            invariant
                i <= base.parts@.len() <= self.parts@.len(),
                forall|j: int| 0 <= j < i ==> base@[j] == self@[j],
            decreases base.parts@.len() - i,
        {
            if !base.parts[i].same(&self.parts[i]) {
                assert(base@[i as int] != self@[i as int]);
                assert(self@.subrange(0, base@.len() as int)[i as int] == self@[i as int]);
                return false;
            }
            i = i + 1;
        }
        assert(base@ =~= self@.subrange(0, base@.len() as int));
        true
    }

    /// What is left of this path behind the components of `base`, if it starts
    /// with them.
    pub fn strip_prefix(&self, base: &ScanPath) -> (r: Option<ScanPath>)
        ensures
            r is Some <==> base@.is_prefix_of(self@),
            r matches Some(rest) ==> rest@ == self@.skip(base@.len() as int),
    {
        if self.starts_with(base) {
            Some(self.from_part(base.parts.len()))
        } else {
            None
        }
    }

    /// The components from index `start` on, as a path of their own.
    fn from_part(&self, start: usize) -> (r: ScanPath)
        requires
            start <= self.parts@.len(),
        ensures
            r@ == self@.skip(start as int),
    {
        let mut parts: Vec<PathPart> = Vec::new();
        let mut i: usize = start;
        while i < self.parts.len()
            invariant
                start <= i <= self.parts@.len(),
                parts@.len() == i - start,
                forall|j: int| 0 <= j < parts@.len() ==> #[trigger] parts@[j]@ == self@[start + j],
            decreases self.parts@.len() - i,
        {
            parts.push(self.parts[i].clone());
            i = i + 1;
        }
        let r = ScanPath { parts };
        assert(r@ =~= self@.skip(start as int));
        r
    }

    /// This path with the component `name` of the given kind joined onto it.
    pub fn join(&self, kind: PartKind, name: &String) -> (r: ScanPath)
        ensures
            r@ == joined(self@, kind, name@),
    {
        let part = PathPart { kind, text: PartText::Bytes(name.as_str().as_bytes_vec()) };
        let mut r = ScanPath { parts: Vec::new() };
        match kind {
            PartKind::Prefix => {
                r.parts.push(part);
            },
            PartKind::RootDir => {
                if self.parts.len() > 0 && self.parts[0].kind == PartKind::Prefix {
                    r.parts.push(self.parts[0].clone());
                }
                r.parts.push(part);
            },
            PartKind::CurDir => {
                r = self.clone();
                if self.parts.len() == 0 || (self.parts.len() == 1 && self.parts[0].kind
                    == PartKind::Prefix) {
                    r.parts.push(part);
                }
            },
            PartKind::ParentDir => {
                r = self.clone();
                r.parts.push(part);
            },
            PartKind::Normal => {
                r = self.clone();
                r.parts.push(part);
            },
        }
        assert(r@ =~= joined(self@, kind, name@));
        r
    }

    /// The text of the last component, if that is an ordinary name and is text.
    pub fn file_name(&self) -> (r: Option<String>)
        ensures
            match file_name_of(self@) {
                Some(name) => r matches Some(text) && text@ == name,
                None => r is None,
            },
    {
        let n = self.parts.len();
        if n > 0 && self.parts[n - 1].kind == PartKind::Normal {
            self.parts[n - 1].text.strict()
        } else {
            None
        }
    }

    /// This path with its file name replaced by `name`, or with `name` joined on
    /// where it does not end in an ordinary name.
    pub fn with_file_name(&self, name: &String) -> (r: ScanPath)
        ensures
            r@ == beside(self@, name@),
    {
        let n = self.parts.len();
        if n > 0 && self.parts[n - 1].kind == PartKind::Normal {
            let mut base = self.clone();
            let ghost whole = base@;
            assert(base.parts@.len() == whole.len());
            let _last = base.parts.pop();
            assert(base@ =~= whole.drop_last());
            base.join(PartKind::Normal, name)
        } else {
            self.join(PartKind::Normal, name)
        }
    }

    /// The name under which a scan of this path shows its root.
    pub fn root_name(&self) -> (r: String)
        ensures
            r@ == root_name_of(self@),
    {
        match self.file_name() {
            Some(name) => name,
            None => ".".to_owned(),
        }
    }
}

} // verus!
