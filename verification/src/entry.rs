//! The entries of the list on screen, and what is drawn of each.

pub mod order;

use vstd::prelude::*;
use vstd::string::{StrSliceExecFns, StringSliceAdditionalSpecFns};
use vstd::utf8::{
    encode_utf8, encode_utf8_valid_utf8, is_char_boundary,
    is_char_boundary_iff_not_is_continuation_byte, is_char_boundary_start_end_of_seq,
    valid_utf8_split,
};

use crate::hotkeys::KeyCombo;
use crate::paths::{extension_of, file_name_of, path_extension, path_file_name};
use crate::text::{
    bytes_before, contains, find, first_of_lowercase, is_before, is_first_occurrence, lowercase,
    lowercase_head, occurs_at, occurs_in, to_lowercase,
};

verus! {

/// What an entry is: a file, with its extension where it has one, or a
/// directory.
#[derive(Debug, PartialEq, Eq)]
pub enum EntryKind {
    File { extension: Option<String> },
    Directory,
}

impl EntryKind {
    /// Whether the entry is a directory.
    pub fn is_directory(&self) -> (r: bool)
        ensures
            r == (self is Directory),
    {
        match self {
            EntryKind::Directory => true,
            EntryKind::File { .. } => false,
        }
    }
}

/// One entry of a listing: where it is, what it is and how it is called.
#[derive(Debug)]
pub struct Entry {
    pub path: String,
    pub kind: EntryKind,
    pub name: String,
}

/// The text of an optional string.
pub open spec fn text_of(text: Option<String>) -> Option<Seq<char>> {
    match text {
        Some(t) => Some(t@),
        None => None,
    }
}

impl Entry {
    /// The entry at `path`, which is a directory or a file: its name is the
    /// last component of the path, or empty where the path does not end in
    /// a name, and a file has the extension of that name.
    pub fn from_path(path: String, is_directory: bool) -> (entry: Entry)
        ensures
            entry.path == path,
            entry.name@ == (match path_file_name(path@) {
                Some(name) => name,
                None => Seq::empty(),
            }),
            is_directory ==> entry.kind is Directory,
            !is_directory ==> entry.kind is File && text_of(entry.kind->extension)
                == path_extension(path@),
    {
        let name = match file_name_of(path.as_str()) {
            Some(name) => name,
            None => String::new(),
        };
        if is_directory {
            Entry { path, kind: EntryKind::Directory, name }
        } else {
            let extension = extension_of(path.as_str());
            Entry { path, kind: EntryKind::File { extension }, name }
        }
    }

    /// Whether this entry is listed before `other`: directories before
    /// files, and among entries of one kind the one whose name, in lower
    /// case, comes first.
    pub open spec fn spec_listed_before(self, other: Entry) -> bool {
        if (self.kind is Directory) == (other.kind is Directory) {
            bytes_before(encode_utf8(lowercase(self.name@)), encode_utf8(lowercase(other.name@)))
        } else {
            self.kind is Directory
        }
    }

    /// Computes `spec_listed_before`.
    pub fn listed_before(&self, other: &Entry) -> (before: bool)
        ensures
            before == self.spec_listed_before(*other),
    {
        if self.kind.is_directory() == other.kind.is_directory() {
            let name = to_lowercase(self.name.as_str());
            let other_name = to_lowercase(other.name.as_str());
            is_before(name.as_str(), other_name.as_str())
        } else {
            self.kind.is_directory()
        }
    }
}

/// What is drawn of one entry. The name is cut in three by the text of the
/// search box: what stands before the hit, the hit, and what follows it.
/// The sequence of key combinations is filled in when shortcuts are assigned.
#[derive(Debug, PartialEq)]
pub struct EntryRenderData<'a> {
    pub prefix: &'a str,
    pub search_hit: &'a str,
    pub suffix: &'a str,
    /// The character that no shortcut may use: the one that the user would
    /// type next to go on with this entry's name, in lower case.
    pub illegal_char_for_hotkey: Option<char>,
    pub kind: &'a EntryKind,
    pub key_combo_sequence: Option<Vec<KeyCombo>>,
}

/// The character that a user would type next to go on with `text`: the
/// first character of the lower case of its first character.
pub open spec fn next_char_lowercase(text: Seq<char>) -> Option<char> {
    if text.len() == 0 {
        None
    } else {
        lowercase_head(text[0])
    }
}

/// Whether `name` can be cut at the bytes `from` and `to`: each of the two
/// places lies between two characters of the name, or at one of its ends.
pub open spec fn can_cut(name: Seq<char>, from: int, to: int) -> bool {
    is_char_boundary(encode_utf8(name), from) && is_char_boundary(encode_utf8(name), to)
}

/// Where the hit of `query` lies in `name`, as the places of its first byte
/// and of the byte behind its last.
///
/// The hit is looked for in lower case: it is the first place at which the
/// lower case of the query stands in the lower case of the name, and it is
/// as long as the lower case of the query. There is a hit only where the
/// name can be cut at both places.
pub open spec fn hit_range(name: Seq<char>, query: Seq<char>) -> Option<(int, int)> {
    let name_lower = encode_utf8(lowercase(name));
    let query_lower = encode_utf8(lowercase(query));
    if query.len() == 0 || !occurs_in(query_lower, name_lower) {
        None
    } else {
        let from = choose|at: int| is_first_occurrence(query_lower, name_lower, at);
        let to = from + query_lower.len();
        if can_cut(name, from, to) {
            Some((from, to))
        } else {
            None
        }
    }
}

/// The character that a user would type next to go on with `text`.
fn next_char_of(text: &str) -> (next: Option<char>)
    ensures
        next == next_char_lowercase(text@),
{
    if text.is_empty() {
        None
    } else {
        first_of_lowercase(text.get_char(0))
    }
}

/// After a place where a text can be cut, the rest can be cut where the
/// whole text can.
proof fn lemma_boundary_in_rest(bytes: Seq<u8>, from: int, more: int)
    requires
        vstd::utf8::valid_utf8(bytes),
        is_char_boundary(bytes, from),
        0 <= from <= bytes.len(),
        0 <= more,
    ensures
        is_char_boundary(bytes.subrange(from, bytes.len() as int), more) <==> is_char_boundary(
            bytes,
            from + more,
        ),
{
    let rest = bytes.subrange(from, bytes.len() as int);
    valid_utf8_split(bytes, from);
    is_char_boundary_start_end_of_seq(rest);
    is_char_boundary_start_end_of_seq(bytes);
    if more == 0 {
    } else if more > rest.len() {
    } else if more == rest.len() {
    } else {
        is_char_boundary_iff_not_is_continuation_byte(rest, more);
        is_char_boundary_iff_not_is_continuation_byte(bytes, from + more);
        assert(rest[more] == bytes[from + more]);
    }
}

/// The three parts of `name` around the `length` bytes that begin at the
/// byte `from`: what stands before them, the bytes themselves, and what
/// follows them; `None` where the name cannot be cut at both ends.
pub fn cut_at<'a>(name: &'a str, from: usize, length: usize) -> (parts: Option<
    (&'a str, &'a str, &'a str),
>)
    ensures
        parts is Some <==> can_cut(name@, from as int, from + length),
        parts matches Some((prefix, hit, suffix)) ==> {
            &&& prefix.spec_bytes() == encode_utf8(name@).subrange(0, from as int)
            &&& hit.spec_bytes() == encode_utf8(name@).subrange(from as int, from + length)
            &&& suffix.spec_bytes() == encode_utf8(name@).subrange(
                from + length,
                encode_utf8(name@).len() as int,
            )
        },
{
    let ghost bytes = name.spec_bytes();
    proof {
        encode_utf8_valid_utf8(name@);
    }
    if !name.is_char_boundary(from) {
        return None;
    }
    let (prefix, rest) = name.split_at(from);
    proof {
        assert(from <= bytes.len()) by {
            reveal_with_fuel(is_char_boundary, 2);
        }
        lemma_boundary_in_rest(bytes, from as int, length as int);
    }
    if !rest.is_char_boundary(length) {
        return None;
    }
    let (hit, suffix) = rest.split_at(length);
    proof {
        assert(length <= rest.spec_bytes().len()) by {
            reveal_with_fuel(is_char_boundary, 2);
        }
        let rest_bytes = bytes.subrange(from as int, bytes.len() as int);
        assert(rest_bytes.subrange(0, length as int) =~= bytes.subrange(
            from as int,
            from + length,
        ));
        assert(rest_bytes.subrange(length as int, rest_bytes.len() as int) =~= bytes.subrange(
            from + length,
            bytes.len() as int,
        ));
    }
    Some((prefix, hit, suffix))
}

impl<'a> EntryRenderData<'a> {
    /// Whether this is what is drawn of `entry` while the search box holds
    /// `search_query`, whatever sequence is assigned to it.
    ///
    /// Where the query has a hit in the name, the name is cut in three at
    /// the hit, and the character that follows the hit is reserved. Else
    /// the whole name stands before an empty hit, and the first character of
    /// the name is reserved.
    pub open spec fn shows(self, entry: Entry, search_query: Seq<char>) -> bool {
        &&& *self.kind == entry.kind
        &&& match hit_range(entry.name@, search_query) {
            Some((from, to)) => {
                &&& self.prefix.spec_bytes() == encode_utf8(entry.name@).subrange(0, from)
                &&& self.search_hit.spec_bytes() == encode_utf8(entry.name@).subrange(from, to)
                &&& self.suffix.spec_bytes() == encode_utf8(entry.name@).subrange(
                    to,
                    encode_utf8(entry.name@).len() as int,
                )
                &&& self.illegal_char_for_hotkey == next_char_lowercase(self.suffix@)
            },
            None => {
                &&& self.prefix@ == entry.name@
                &&& self.search_hit@.len() == 0
                &&& self.suffix@.len() == 0
                &&& self.illegal_char_for_hotkey == next_char_lowercase(entry.name@)
            },
        }
    }

    /// This entry without a sequence.
    pub open spec fn unassigned(self) -> Self {
        EntryRenderData { key_combo_sequence: None, ..self }
    }

    /// What is drawn of `entry` while the search box holds `search_query`.
    ///
    /// Where the query has a hit in the name, the name is cut in three at
    /// the hit, and the character that follows the hit is reserved. Else
    /// the whole name stands before an empty hit, and the first character of
    /// the name is reserved. No sequence is assigned yet.
    pub fn from_entry(entry: &'a Entry, search_query: &str) -> (data: EntryRenderData<'a>)
        ensures
            data.shows(*entry, search_query@),
            data.key_combo_sequence is None,
    {
        let name = entry.name.as_str();
        proof {
            reveal_strlit("");
        }
        if !search_query.is_empty() {
            let name_lower = to_lowercase(name);
            let query_lower = to_lowercase(search_query);
            match find(name_lower.as_str(), query_lower.as_str()) {
                Some(index) => {
                    let ghost lower = encode_utf8(name_lower@);
                    let ghost wanted = encode_utf8(query_lower@);
                    proof {
                        let from = choose|at: int| is_first_occurrence(wanted, lower, at);
                        assert(occurs_in(wanted, lower)) by {
                            assert(occurs_at(wanted, lower, index as int));
                        }
                        assert(from == index) by {
                            if from < index {
                                assert(!occurs_at(wanted, lower, from));
                            } else if index < from {
                                assert(!occurs_at(wanted, lower, index as int));
                            }
                        }
                    }
                    match cut_at(name, index, query_lower.as_str().as_bytes().len()) {
                        Some((prefix, search_hit, suffix)) => {
                            return EntryRenderData {
                                prefix,
                                search_hit,
                                suffix,
                                illegal_char_for_hotkey: next_char_of(suffix),
                                kind: &entry.kind,
                                key_combo_sequence: None,
                            };
                        },
                        None => {},
                    }
                },
                None => {},
            }
        }
        EntryRenderData {
            prefix: name,
            search_hit: "",
            suffix: "",
            illegal_char_for_hotkey: next_char_of(name),
            kind: &entry.kind,
            key_combo_sequence: None,
        }
    }

    /// The sequence assigned to the entry, as a sequence of combinations.
    pub open spec fn sequence(self) -> Option<Seq<KeyCombo>> {
        match self.key_combo_sequence {
            Some(keys) => Some(keys@),
            None => None,
        }
    }

    /// Whether a shortcut can be assigned to the entry: only to a directory.
    pub open spec fn is_eligible(self) -> bool {
        *self.kind is Directory
    }

    /// `other` is this entry with, at most, another sequence assigned.
    pub open spec fn same_entry(self, other: Self) -> bool {
        &&& self.prefix == other.prefix
        &&& self.search_hit == other.search_hit
        &&& self.suffix == other.suffix
        &&& self.illegal_char_for_hotkey == other.illegal_char_for_hotkey
        &&& self.kind == other.kind
    }
}

/// The entries of a listing, and which of them the search box lets through.
#[derive(Debug)]
pub struct EntryList {
    pub items: Vec<Entry>,
    /// The places of the entries that the search box lets through, in
    /// order; `None` while the search box is empty and lets all through.
    pub filtered_indices: Option<Vec<usize>>,
}

/// Whether the search text `value`, in lower case, stands in the name.
pub open spec fn passes_filter(name: Seq<char>, value_lower: Seq<char>) -> bool {
    occurs_in(value_lower, lowercase(name))
}

/// The places among the first `upto` entries whose names pass the filter.
pub open spec fn filtered(names: Seq<Seq<char>>, value_lower: Seq<char>, upto: int) -> Seq<usize>
    decreases upto,
{
    if upto <= 0 {
        Seq::empty()
    } else if passes_filter(names[upto - 1], value_lower) {
        filtered(names, value_lower, upto - 1).push((upto - 1) as usize)
    } else {
        filtered(names, value_lower, upto - 1)
    }
}

impl EntryList {
    /// The names of the entries.
    pub open spec fn names(self) -> Seq<Seq<char>> {
        Seq::new(self.items@.len(), |i: int| self.items@[i].name@)
    }

    /// The places that are let through.
    pub open spec fn shown(self) -> Seq<usize> {
        match self.filtered_indices {
            Some(indices) => indices@,
            None => Seq::new(self.items@.len(), |i: int| i as usize),
        }
    }

    /// Every place that is let through is the place of an entry.
    pub open spec fn well_formed(self) -> bool {
        forall|k: int| 0 <= k < self.shown().len() ==> (#[trigger] self.shown()[k]) < self.items@.len()
    }

    /// A listing of `items` in the order of a listing, directories first,
    /// that lets all of them through.
    pub fn sorted(items: Vec<Entry>) -> (list: EntryList)
        ensures
            list.items@.to_multiset() == items@.to_multiset(),
            order::in_listing_order(list.items@),
            list.filtered_indices is None,
            list.well_formed(),
    {
        let mut items = items;
        order::sort_entries(&mut items);
        EntryList { items, filtered_indices: None }
    }

    /// A listing of `items` that lets all of them through.
    pub fn new(items: Vec<Entry>) -> (list: EntryList)
        ensures
            list.items == items,
            list.filtered_indices is None,
            list.well_formed(),
    {
        EntryList { items, filtered_indices: None }
    }

    /// The number of entries, shown or not.
    pub fn len(&self) -> (count: usize)
        ensures
            count == self.items@.len(),
    {
        self.items.len()
    }

    /// The number of entries that are let through.
    pub fn shown_len(&self) -> (count: usize)
        ensures
            count == self.shown().len(),
    {
        match &self.filtered_indices {
            Some(indices) => indices.len(),
            None => self.items.len(),
        }
    }

    /// The entries that are let through, in order.
    pub fn get_filtered_entries(&self) -> (entries: Vec<&Entry>)
        requires
            self.well_formed(),
        ensures
            entries@.len() == self.shown().len(),
            forall|k: int|
                0 <= k < entries@.len() ==> *(#[trigger] entries@[k]) == self.items@[self.shown()[k] as int],
    {
        let mut entries: Vec<&Entry> = Vec::new();
        match &self.filtered_indices {
            Some(indices) => {
                let mut k: usize = 0;
                while k < indices.len()
                    invariant
                        k <= indices@.len(),
                        self.well_formed(),
                        self.filtered_indices == Some(*indices),
                        entries@.len() == k,
                        forall|j: int|
                            0 <= j < k ==> *(#[trigger] entries@[j]) == self.items@[indices@[j] as int],
                    decreases indices@.len() - k,
                {
                    proof {
                        assert(self.shown()[k as int] < self.items@.len());
                    }
                    entries.push(&self.items[indices[k]]);
                    k += 1;
                }
            },
            None => {
                let mut k: usize = 0;
                while k < self.items.len()
                    invariant
                        k <= self.items@.len(),
                        entries@.len() == k,
                        forall|j: int| 0 <= j < k ==> *(#[trigger] entries@[j]) == self.items@[j],
                    decreases self.items@.len() - k,
                {
                    entries.push(&self.items[k]);
                    k += 1;
                }
            },
        }
        entries
    }

    /// Sets the filter to the search text `value`: an empty text lets all
    /// entries through; any other text lets those through whose name holds
    /// it, upper and lower case counting as the same.
    pub fn update_filtered_indices(&mut self, value: &str)
        ensures
            final(self).items == old(self).items,
            lowercase(value@).len() == 0 ==> final(self).filtered_indices is None,
            lowercase(value@).len() > 0 ==> final(self).filtered_indices is Some && final(self).filtered_indices->0@ == filtered(
                old(self).names(),
                lowercase(value@),
                old(self).items@.len() as int,
            ),
            final(self).well_formed(),
    {
        let value_lower = to_lowercase(value);
        if value_lower.as_str().is_empty() {
            self.filtered_indices = None;
        } else {
            let mut indices: Vec<usize> = Vec::new();
            let mut i: usize = 0;
            while i < self.items.len()
                invariant
                    i <= self.items@.len(),
                    self.items == old(self).items,
                    value_lower@ == lowercase(value@),
                    indices@ == filtered(self.names(), value_lower@, i as int),
                    forall|k: int| 0 <= k < indices@.len() ==> (#[trigger] indices@[k]) < i,
                decreases self.items@.len() - i,
            {
                let name_lower = to_lowercase(self.items[i].name.as_str());
                if contains(name_lower.as_str(), value_lower.as_str()) {
                    indices.push(i);
                }
                i += 1;
            }
            self.filtered_indices = Some(indices);
        }
    }
}

impl Default for EntryList {
    fn default() -> (list: EntryList)
        ensures
            list.items@.len() == 0,
            list.filtered_indices is None,
            list.well_formed(),
    {
        EntryList { items: Vec::new(), filtered_indices: None }
    }
}

} // verus!
