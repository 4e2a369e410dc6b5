//! Rule files: texts that hold named rules, one after the other.
//!
//! An entry starts at `[NAME]`. The name follows, then `[PRIORITY]` and an
//! integer where the entry has a priority of its own, then `[BEGIN]`, the
//! text of the rule and `[END]`.

use crate::layer::rows_of;
use crate::text::{number_i32, parse_i32, split, split_at_marks, trim, trimmed};
use vstd::prelude::*;
use vstd::string::StringSliceAdditionalSpecFns;

verus! {

/// One entry of a rule file: the name of a rule, its text and its priority.
#[derive(Debug)]
pub struct Entry {
    pub name: Vec<u8>,
    pub content: Vec<u8>,
    pub priority: i32,
}

/// An entry as a mathematical value.
pub struct EntryView {
    pub name: Seq<u8>,
    pub content: Seq<u8>,
    pub priority: i32,
}

impl View for Entry {
    type V = EntryView;

    open spec fn view(&self) -> EntryView {
        EntryView { name: self.name@, content: self.content@, priority: self.priority }
    }
}

/// Why a text is no rule file.
#[derive(Clone, Copy, Debug, PartialEq, Eq, Structural)]
pub enum FileError {
    /// An entry has no priority, and none was given for such entries.
    NoPriority,
    /// What follows `[PRIORITY]` is no integer of 32 bits.
    Priority,
    /// `[PRIORITY]` stands more than once before `[BEGIN]`.
    Priorities,
}

/// What one part of a rule file holds, where `[NAME]` separates the parts.
/// A part in which `[BEGIN]` does not stand exactly once holds no entry. The
/// name and the text of the rule are taken without the white space around
/// them, and the text of the rule ends at the first `[END]`.
pub open spec fn entry(part: Seq<u8>, default_priority: Option<i32>) -> Option<
    Result<EntryView, FileError>,
> {
    let halves = split(part, "[BEGIN]".spec_bytes());
    let head = split(halves[0], "[PRIORITY]".spec_bytes());
    let name = trim(head[0]);
    let content = trim(split(halves[1], "[END]".spec_bytes())[0]);
    if halves.len() != 2 {
        None
    } else if head.len() == 1 {
        match default_priority {
            Some(priority) => Some(Ok(EntryView { name, content, priority })),
            None => Some(Err(FileError::NoPriority)),
        }
    } else if head.len() == 2 {
        match number_i32(trim(head[1])) {
            Some(priority) => Some(Ok(EntryView { name, content, priority })),
            None => Some(Err(FileError::Priority)),
        }
    } else {
        Some(Err(FileError::Priorities))
    }
}

/// The entries of the first `n` parts of a rule file, or the first error
/// among them.
pub open spec fn entries(parts: Seq<Seq<u8>>, default_priority: Option<i32>, n: nat) -> Result<
    Seq<EntryView>,
    FileError,
>
    decreases n,
{
    if n == 0 {
        Ok(Seq::empty())
    } else {
        match entries(parts, default_priority, (n - 1) as nat) {
            Err(e) => Err(e),
            Ok(before) => match entry(parts[n - 1], default_priority) {
                None => Ok(before),
                Some(Err(e)) => Err(e),
                Some(Ok(found)) => Ok(before.push(found)),
            },
        }
    }
}

/// The entries of a rule file in the order in which they stand, or the first
/// error in it. Entries without a priority of their own get the default
/// one.
pub open spec fn rule_file(text: Seq<u8>, default_priority: Option<i32>) -> Result<
    Seq<EntryView>,
    FileError,
> {
    let parts = split(trim(text), "[NAME]".spec_bytes());
    entries(parts, default_priority, parts.len())
}

/// The entries as mathematical values.
pub open spec fn entry_views(found: Seq<Entry>) -> Seq<EntryView> {
    Seq::new(found.len(), |i: int| found[i]@)
}

/// Reads what one part of a rule file holds.
fn read_entry(part: &[u8], default_priority: Option<i32>) -> (r: Option<Result<Entry, FileError>>)
    ensures
        match r {
            None => entry(part@, default_priority) is None,
            Some(Err(e)) => entry(part@, default_priority) == Some(
                Err::<EntryView, FileError>(e),
            ),
            Some(Ok(found)) => entry(part@, default_priority) == Some(
                Ok::<EntryView, FileError>(found@),
            ),
        },
{
    let halves = split_at_marks(part, "[BEGIN]".as_bytes());
    if halves.len() != 2 {
        return None;
    }
    let head = split_at_marks(halves[0].as_slice(), "[PRIORITY]".as_bytes());
    let tail = split_at_marks(halves[1].as_slice(), "[END]".as_bytes());
    assert(head.len() >= 1 && tail.len() >= 1) by {
        lemma_split_some(halves[0]@, "[PRIORITY]".spec_bytes());
        lemma_split_some(halves[1]@, "[END]".spec_bytes());
    }
    let priority = if head.len() == 1 {
        match default_priority {
            Some(priority) => priority,
            None => {
                return Some(Err(FileError::NoPriority));
            },
        }
    } else if head.len() == 2 {
        let digits = trimmed(head[1].as_slice());
        match parse_i32(digits.as_slice()) {
            Some(priority) => priority,
            None => {
                return Some(Err(FileError::Priority));
            },
        }
    } else {
        return Some(Err(FileError::Priorities));
    };
    let name = trimmed(head[0].as_slice());
    let content = trimmed(tail[0].as_slice());
    Some(Ok(Entry { name, content, priority }))
}

/// A text has at least one part, whatever the mark.
proof fn lemma_split_some(s: Seq<u8>, mark: Seq<u8>)
    ensures
        split(s, mark).len() >= 1,
{
}

/// Reads the entries of a rule file in the order in which they stand, or
/// finds the first error in it.
pub fn read_rule_file(text: &[u8], default_priority: Option<i32>) -> (r: Result<
    Vec<Entry>,
    FileError,
>)
    ensures
        match r {
            Ok(found) => rule_file(text@, default_priority) == Ok::<Seq<EntryView>, FileError>(
                entry_views(found@),
            ),
            Err(e) => rule_file(text@, default_priority) == Err::<Seq<EntryView>, FileError>(e),
        },
{
    let inked = trimmed(text);
    let parts = split_at_marks(inked.as_slice(), "[NAME]".as_bytes());
    let ghost src = rows_of(parts);
    let mut found: Vec<Entry> = Vec::new();
    let mut n: usize = 0;
    assert(entry_views(found@) =~= Seq::<EntryView>::empty());
    while n < parts.len()
        invariant
            n <= parts.len(),
            src == rows_of(parts),
            src == split(trim(text@), "[NAME]".spec_bytes()),
            entries(src, default_priority, n as nat) == Ok::<Seq<EntryView>, FileError>(
                entry_views(found@),
            ),
        decreases parts.len() - n,
    {
        let ghost before = entry_views(found@);
        assert(src[n as int] == parts[n as int]@);
        match read_entry(parts[n].as_slice(), default_priority) {
            None => {},
            Some(Err(e)) => {
                proof {
                    assert(entries(src, default_priority, n as nat + 1) == Err::<
                        Seq<EntryView>,
                        FileError,
                    >(e));
                    lemma_entries_fail(src, default_priority, n as nat + 1, parts.len() as nat);
                }
                return Err(e);
            },
            Some(Ok(one)) => {
                found.push(one);
                assert(entry_views(found@) =~= before.push(one@));
            },
        }
        n += 1;
    }
    Ok(found)
}

/// An error among the first parts of a rule file is the error of the file.
proof fn lemma_entries_fail(parts: Seq<Seq<u8>>, default_priority: Option<i32>, n: nat, m: nat)
    requires
        n <= m,
        entries(parts, default_priority, n) is Err,
    ensures
        entries(parts, default_priority, m) == entries(parts, default_priority, n),
    decreases m,
{
    if n < m {
        lemma_entries_fail(parts, default_priority, n, (m - 1) as nat);
    }
}

} // verus!
