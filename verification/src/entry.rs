use vstd::prelude::*;

verus! {

/// Classification of a filesystem node, as far as the formatter tells them
/// apart: regular file, directory, or anything else (symlinks, devices, ...).
#[derive(Clone, Copy, PartialEq, Eq, Structural, Debug)]
pub enum EntryKind {
    File,
    Directory,
    Other,
}

/// What the host reports about one child of a directory: its display name,
/// kind, byte size, and last-modification instant as whole seconds since the
/// Unix epoch.
pub struct ChildInfo {
    pub name: String,
    pub kind: EntryKind,
    pub size: u64,
    pub modified_secs: i64,
}

/// Mathematical image of a `ChildInfo`.
#[verifier::ext_equal]
pub ghost struct ChildV {
    pub name: Seq<char>,
    pub kind: EntryKind,
    pub size: u64,
    pub modified_secs: i64,
}

impl View for ChildInfo {
    type V = ChildV;

    open spec fn view(&self) -> ChildV {
        ChildV {
            name: self.name@,
            kind: self.kind,
            size: self.size,
            modified_secs: self.modified_secs,
        }
    }
}

/// One visited node. `components` are its path components beneath the walk's
/// root (empty for the root itself), `depth` is their count, and `name` is
/// the final component — or the root's own display name at depth zero.
pub struct Entry {
    pub components: Vec<String>,
    pub name: String,
    pub kind: EntryKind,
    pub size: u64,
    pub modified_secs: i64,
    pub depth: usize,
}

/// Mathematical image of an `Entry`.
#[verifier::ext_equal]
pub ghost struct EntryV {
    pub components: Seq<Seq<char>>,
    pub name: Seq<char>,
    pub kind: EntryKind,
    pub size: u64,
    pub modified_secs: i64,
    pub depth: nat,
}

impl View for Entry {
    type V = EntryV;

    open spec fn view(&self) -> EntryV {
        EntryV {
            components: self.components.deep_view(),
            name: self.name@,
            kind: self.kind,
            size: self.size,
            modified_secs: self.modified_secs,
            depth: self.depth as nat,
        }
    }
}

/// An entry is well formed when its depth counts its components and its name
/// is the last of them (the root, at depth zero, keeps its own display name).
pub open spec fn entry_wf(e: EntryV) -> bool {
    &&& e.depth == e.components.len()
    &&& (e.depth > 0 ==> e.name == e.components.last())
}

/// A display name is hidden when it begins with the dot marker.
pub open spec fn hidden_name(name: Seq<char>) -> bool {
    name.len() > 0 && name[0] == '.'
}

/// No component of the entry's path beneath the root is hidden.
pub open spec fn entry_hidden_free(e: EntryV) -> bool {
    forall|i: int| 0 <= i < e.components.len() ==> !hidden_name(#[trigger] e.components[i])
}

/// True when the display name begins with the hidden-entry marker `.`.
pub fn is_hidden(name: &str) -> (r: bool)
    ensures
        r == hidden_name(name@),
{
    let n = name.unicode_len();
    if n == 0 {
        false
    } else {
        name.get_char(0) == '.'
    }
}

/// The views of a sequence of children.
pub open spec fn child_views(s: Seq<ChildInfo>) -> Seq<ChildV> {
    s.map_values(|c: ChildInfo| c@)
}

/// The views of a sequence of entries.
pub open spec fn entry_views(s: Seq<Entry>) -> Seq<EntryV> {
    s.map_values(|e: Entry| e@)
}

} // verus!
