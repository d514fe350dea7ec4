//! Manifests: the record decoded from a manifest file, and the decoder.
//!
//! A manifest is one JSON object. Its `version` is a string and must be
//! there. Its `bin`, if there and not null, is a path, or a list whose items
//! are each a path or a command (a list of strings, the executable first).
//! Its `description`, if there and not null, is a string. Other members are
//! not read.
//!
//! The text is parsed as a whole before it is read. So a member that is given
//! more than once counts with its last value, and every member, read or not,
//! has to be a value that the parser can hold: a number out of range, or a
//! nesting deeper than the parser goes, makes the whole text malformed.

use vstd::prelude::*;
use crate::json::{json_document, json_of, items_of, member, parse_document, Json};

verus! {

/// One item of a list of bundled executables.
#[derive(Debug, PartialEq, Eq)]
pub enum BinEntry {
    /// The path of an executable.
    Path(String),
    /// An executable with fixed arguments: the path first, then the arguments.
    Command(Vec<String>),
}

/// The bundled executables of a manifest, in either shape.
#[derive(Debug, PartialEq, Eq)]
pub enum BinField {
    /// One executable, given by its path.
    SinglePath(String),
    /// Several executables.
    List(Vec<BinEntry>),
}

/// A decoded manifest.
#[derive(Debug, PartialEq, Eq)]
pub struct ManifestRecord {
    pub version: String,
    pub bundled_executables: Option<BinField>,
    pub description: Option<String>,
}

/// Why a text is no manifest.
#[derive(Clone, Copy, Debug, PartialEq, Eq)]
pub enum DecodeError {
    /// The text is not one JSON document: bad syntax or bad encoding.
    Malformed,
    /// The document is not an object.
    NotAnObject,
    /// The object has no `version`.
    MissingVersion,
    /// `version` is not a string.
    InvalidVersion,
    /// `bin` has none of the accepted shapes.
    InvalidBin,
    /// `description` is neither a string nor null.
    InvalidDescription,
}

/// The mathematical content of a `BinEntry`.
pub enum BinEntryView {
    Path(Seq<char>),
    Command(Seq<Seq<char>>),
}

/// The mathematical content of a `BinField`.
pub enum BinFieldView {
    SinglePath(Seq<char>),
    List(Seq<BinEntryView>),
}

/// The mathematical content of a `ManifestRecord`.
pub struct ManifestView {
    pub version: Seq<char>,
    pub bundled_executables: Option<BinFieldView>,
    pub description: Option<Seq<char>>,
}

/// The characters of each string of `strings`.
pub open spec fn texts(strings: Seq<String>) -> Seq<Seq<char>> {
    Seq::new(strings.len(), |i: int| strings[i]@)
}

/// The content of each entry of `entries`.
pub open spec fn entry_views(entries: Seq<BinEntry>) -> Seq<BinEntryView> {
    Seq::new(entries.len(), |i: int| entries[i]@)
}

/// The characters of an optional string.
pub open spec fn optional_text(s: Option<String>) -> Option<Seq<char>> {
    match s {
        Some(s) => Some(s@),
        None => None,
    }
}

impl View for BinEntry {
    type V = BinEntryView;

    open spec fn view(&self) -> BinEntryView {
        match self {
            BinEntry::Path(p) => BinEntryView::Path(p@),
            BinEntry::Command(c) => BinEntryView::Command(texts(c@)),
        }
    }
}

impl View for BinField {
    type V = BinFieldView;

    open spec fn view(&self) -> BinFieldView {
        match self {
            BinField::SinglePath(p) => BinFieldView::SinglePath(p@),
            BinField::List(entries) => BinFieldView::List(entry_views(entries@)),
        }
    }
}

impl View for ManifestRecord {
    type V = ManifestView;

    open spec fn view(&self) -> ManifestView {
        ManifestView {
            version: self.version@,
            bundled_executables: match self.bundled_executables {
                Some(bin) => Some(bin@),
                None => None,
            },
            description: optional_text(self.description),
        }
    }
}

/// The path of the executable that an entry names: the path itself, or the
/// first string of a command. An empty command names none.
pub open spec fn entry_path(entry: BinEntryView) -> Option<Seq<char>> {
    match entry {
        BinEntryView::Path(p) => Some(p),
        BinEntryView::Command(c) => if c.len() > 0 {
            Some(c[0])
        } else {
            None
        },
    }
}

/// The paths that the entries name, in the order of the entries; an entry
/// that names none is left out.
pub open spec fn entry_paths(entries: Seq<BinEntryView>) -> Seq<Seq<char>>
    decreases entries.len(),
{
    if entries.len() == 0 {
        Seq::empty()
    } else {
        let before = entry_paths(entries.drop_last());
        match entry_path(entries.last()) {
            Some(p) => before.push(p),
            None => before,
        }
    }
}

/// The one canonical form of the bundled executables: their paths, in order.
pub open spec fn candidate_paths(bin: BinFieldView) -> Seq<Seq<char>> {
    match bin {
        BinFieldView::SinglePath(p) => seq![p],
        BinFieldView::List(entries) => entry_paths(entries),
    }
}

/// A command, read from the items of a JSON array: every item is a string.
pub open spec fn decode_command(items: Seq<Json>) -> Option<Seq<Seq<char>>> {
    if forall|i: int| 0 <= i < items.len() ==> #[trigger] items[i] is Text {
        Some(Seq::new(items.len(), |i: int| items[i]->Text_0))
    } else {
        None
    }
}

/// One entry of a `bin` list: a string is a path, an array of strings is a
/// command, anything else is refused.
pub open spec fn decode_entry(j: Json) -> Option<BinEntryView> {
    match j {
        Json::Text(p) => Some(BinEntryView::Path(p)),
        Json::Array(items) => match decode_command(items) {
            Some(c) => Some(BinEntryView::Command(c)),
            None => None,
        },
        _ => None,
    }
}

/// The `bin` member: a string is a single path, an array of entries is a
/// list, anything else is refused.
pub open spec fn decode_bin(j: Json) -> Option<BinFieldView> {
    match j {
        Json::Text(p) => Some(BinFieldView::SinglePath(p)),
        Json::Array(items) => if forall|i: int|
            0 <= i < items.len() ==> (#[trigger] decode_entry(items[i])) is Some {
            Some(
                BinFieldView::List(
                    Seq::new(items.len(), |i: int| decode_entry(items[i])->Some_0),
                ),
            )
        } else {
            None
        },
        _ => None,
    }
}

/// The member under `key`, where there is one and it is not null.
pub open spec fn present(members: Map<Seq<char>, Json>, key: Seq<char>) -> Option<Json> {
    if members.contains_key(key) && !(members[key] is Null) {
        Some(members[key])
    } else {
        None
    }
}

/// The manifest that a JSON value holds, or the first reason why it holds
/// none. `version` is looked at first, then `bin`, then `description`.
pub open spec fn decode_json(j: Json) -> Result<ManifestView, DecodeError> {
    match j {
        Json::Object(members) => {
            if !members.contains_key("version"@) {
                Err(DecodeError::MissingVersion)
            } else if !(members["version"@] is Text) {
                Err(DecodeError::InvalidVersion)
            } else if present(members, "bin"@) is Some && decode_bin(
                present(members, "bin"@)->Some_0,
            ) is None {
                Err(DecodeError::InvalidBin)
            } else if present(members, "description"@) is Some && !(present(
                members,
                "description"@,
            )->Some_0 is Text) {
                Err(DecodeError::InvalidDescription)
            } else {
                Ok(
                    ManifestView {
                        version: members["version"@]->Text_0,
                        bundled_executables: match present(members, "bin"@) {
                            Some(b) => decode_bin(b),
                            None => None,
                        },
                        description: match present(members, "description"@) {
                            Some(d) => Some(d->Text_0),
                            None => None,
                        },
                    },
                )
            }
        },
        _ => Err(DecodeError::NotAnObject),
    }
}

/// The manifest that a text holds, or the first reason why it holds none.
pub open spec fn decode_document(bytes: Seq<u8>) -> Result<ManifestView, DecodeError> {
    match json_document(bytes) {
        Some(j) => decode_json(j),
        None => Err(DecodeError::Malformed),
    }
}

/// `r` is the outcome `expected`, with the record taken by its content.
pub open spec fn decodes_to(
    r: Result<ManifestRecord, DecodeError>,
    expected: Result<ManifestView, DecodeError>,
) -> bool {
    match r {
        Ok(m) => expected == Ok::<ManifestView, DecodeError>(m@),
        Err(e) => expected == Err::<ManifestView, DecodeError>(e),
    }
}

impl BinEntry {
    /// The path of the executable that the entry names, if it names one.
    pub fn path(&self) -> (r: Option<&String>)
        ensures
            match r {
                Some(p) => entry_path(self@) == Some(p@),
                None => entry_path(self@) is None,
            },
    {
        match self {
            BinEntry::Path(p) => Some(p),
            BinEntry::Command(c) => if c.len() > 0 {
                Some(&c[0])
            } else {
                None
            },
        }
    }
}

impl BinField {
    /// The paths of the bundled executables, in order, whatever the shape of
    /// the field.
    pub fn candidate_paths(&self) -> (r: Vec<String>)
        ensures
            texts(r@) == candidate_paths(self@),
    {
        let mut out: Vec<String> = Vec::new();
        match self {
            BinField::SinglePath(p) => {
                out.push(p.clone());
            },
            BinField::List(entries) => {
                let mut i: usize = 0;
                while i < entries.len()
                    invariant
                        i <= entries.len(),
                        texts(out@) == entry_paths(entry_views(entries@).take(i as int)),
                    decreases entries.len() - i,
                {
                    assert(entry_views(entries@).take(i + 1).drop_last() =~= entry_views(
                        entries@,
                    ).take(i as int));
                    match entries[i].path() {
                        Some(p) => {
                            out.push(p.clone());
                        },
                        None => {},
                    }
                    i += 1;
                }
                assert(entry_views(entries@).take(i as int) =~= entry_views(entries@));
            },
        }
        out
    }
}

/// Reads a command from the items of a JSON array.
fn command_from_items(items: &Vec<serde_json::Value>) -> (r: Option<Vec<String>>)
    ensures
        match r {
            Some(c) => decode_command(items_of(items@)) == Some(texts(c@)),
            None => decode_command(items_of(items@)) is None,
        },
{
    let mut out: Vec<String> = Vec::new();
    let mut i: usize = 0;
    while i < items.len()
        invariant
            i <= items.len(),
            out.len() == i,
            forall|k: int| 0 <= k < i ==> #[trigger] items_of(items@)[k] == Json::Text(out@[k]@),
        decreases items.len() - i,
    {
        match items[i].as_str() {
            Some(s) => {
                out.push(s.to_owned());
            },
            None => {
                assert(!(items_of(items@)[i as int] is Text));
                return None;
            },
        }
        i += 1;
    }
    Some(out)
}

/// Reads one entry of a `bin` list.
fn entry_from_value(v: &serde_json::Value) -> (r: Option<BinEntry>)
    ensures
        match r {
            Some(e) => decode_entry(json_of(*v)) == Some(e@),
            None => decode_entry(json_of(*v)) is None,
        },
{
    match v.as_str() {
        Some(s) => Some(BinEntry::Path(s.to_owned())),
        None => match v.as_array() {
            Some(items) => match command_from_items(items) {
                Some(c) => Some(BinEntry::Command(c)),
                None => None,
            },
            None => None,
        },
    }
}

/// Reads the `bin` member.
fn bin_from_value(v: &serde_json::Value) -> (r: Option<BinField>)
    ensures
        match r {
            Some(b) => decode_bin(json_of(*v)) == Some(b@),
            None => decode_bin(json_of(*v)) is None,
        },
{
    match v.as_str() {
        Some(s) => Some(BinField::SinglePath(s.to_owned())),
        None => match v.as_array() {
            Some(items) => {
                let mut out: Vec<BinEntry> = Vec::new();
                let mut i: usize = 0;
                while i < items.len()
                    invariant
                        i <= items.len(),
                        out.len() == i,
                        json_of(*v) == Json::Array(items_of(items@)),
                        forall|k: int|
                            0 <= k < i ==> #[trigger] decode_entry(items_of(items@)[k]) == Some(
                                out@[k]@,
                            ),
                    decreases items.len() - i,
                {
                    match entry_from_value(&items[i]) {
                        Some(e) => {
                            out.push(e);
                        },
                        None => {
                            assert(decode_entry(items_of(items@)[i as int]) is None);
                            return None;
                        },
                    }
                    i += 1;
                }
                assert(Seq::new(
                    items_of(items@).len(),
                    |k: int| decode_entry(items_of(items@)[k])->Some_0,
                ) =~= entry_views(out@));
                Some(BinField::List(out))
            },
            None => None,
        },
    }
}

/// The member of `v` under `key`, where `v` is an object that has one and it
/// is not null.
fn present_member<'a>(v: &'a serde_json::Value, key: &str) -> (r: Option<&'a serde_json::Value>)
    requires
        json_of(*v) is Object,
    ensures
        match r {
            Some(m) => present(json_of(*v)->Object_0, key@) == Some(json_of(*m)),
            None => present(json_of(*v)->Object_0, key@) is None,
        },
{
    match member(v, key) {
        Some(m) => if m.is_null() {
            None
        } else {
            Some(m)
        },
        None => None,
    }
}

/// Reads a manifest from a parsed JSON value.
pub fn manifest_from_value(v: &serde_json::Value) -> (r: Result<ManifestRecord, DecodeError>)
    ensures
        decodes_to(r, decode_json(json_of(*v))),
{
    if !v.is_object() {
        return Err(DecodeError::NotAnObject);
    }
    let version = match member(v, "version") {
        Some(m) => match m.as_str() {
            Some(s) => s.to_owned(),
            None => {
                return Err(DecodeError::InvalidVersion);
            },
        },
        None => {
            return Err(DecodeError::MissingVersion);
        },
    };
    let bundled_executables = match present_member(v, "bin") {
        Some(b) => match bin_from_value(b) {
            Some(bin) => Some(bin),
            None => {
                return Err(DecodeError::InvalidBin);
            },
        },
        None => None,
    };
    let description = match present_member(v, "description") {
        Some(d) => match d.as_str() {
            Some(s) => Some(s.to_owned()),
            None => {
                return Err(DecodeError::InvalidDescription);
            },
        },
        None => None,
    };
    Ok(ManifestRecord { version, bundled_executables, description })
}

/// Decodes the text of a manifest file.
pub fn decode_manifest(bytes: &[u8]) -> (r: Result<ManifestRecord, DecodeError>)
    ensures
        decodes_to(r, decode_document(bytes@)),
{
    match parse_document(bytes) {
        Ok(v) => manifest_from_value(&v),
        Err(_) => Err(DecodeError::Malformed),
    }
}

} // verus!
