//! What the listing of a freshly generated project shows: which entries of a
//! directory are printed, which directories are opened in turn, and how
//! many entries are summed up as "more".
use vstd::prelude::*;

verus! {

/// How many entries a directory below the top level shows at most.
pub const CHILD_LIMIT: usize = 8;

/// Directories are opened down to this depth (exclusive).
pub const MAX_DEPTH: usize = 2;

/// One entry of a directory, already in the order in which it is listed.
pub struct TreeEntry {
    pub name: String,
    pub is_dir: bool,
}

/// One printed line of the listing.
pub enum TreeLine {
    /// A directory; `descend` says whether its own entries follow.
    Dir { name: String, descend: bool },
    File { name: String },
    /// The entries left out at the top level.
    More { remaining: usize },
}

/// How many entries of a directory at `depth` are shown: the top level
/// stops at `max_files`, the levels below show everything.
pub open spec fn shown_count(len: nat, depth: nat, max_files: nat) -> nat {
    if depth == 0 && len > max_files {
        max_files
    } else {
        len
    }
}

/// The line that shows `e` at `depth`.
pub open spec fn line_for(e: TreeEntry, depth: nat, l: TreeLine) -> bool {
    if e.is_dir {
        l matches TreeLine::Dir { name, descend } && name@ == e.name@ && descend == (depth < MAX_DEPTH)
    } else {
        l matches TreeLine::File { name } && name@ == e.name@
    }
}

/// The lines that list `entries` of a directory at `depth`, showing at most
/// `max_files` of them at the top level and naming the rest as "more".
pub fn tree_lines(entries: &Vec<TreeEntry>, depth: usize, max_files: usize) -> (r: Vec<TreeLine>)
    ensures
        ({
            let n = shown_count(entries.len() as nat, depth as nat, max_files as nat);
            &&& r.len() == if n < entries.len() { n + 1 } else { n }
            &&& forall|i: int| 0 <= i < n ==> #[trigger] line_for(entries[i], depth as nat, r[i])
            &&& n < entries.len() ==> r[n as int] == (TreeLine::More { remaining: (entries.len() - n) as usize })
        }),
{
    let ghost n = shown_count(entries.len() as nat, depth as nat, max_files as nat);
    let mut r: Vec<TreeLine> = Vec::new();
    let mut i: usize = 0;
    while i < entries.len()
        invariant_except_break
            i <= n,
            r.len() == i,
        invariant
            i <= entries.len(),
            n <= entries.len(),
            n == shown_count(entries.len() as nat, depth as nat, max_files as nat),
            r.len() >= i,
            forall|k: int| 0 <= k < i ==> #[trigger] line_for(entries[k], depth as nat, r[k]),
        ensures
            i == n,
            r.len() == if n < entries.len() { n + 1 } else { n },
            forall|k: int| 0 <= k < n ==> #[trigger] line_for(entries[k], depth as nat, r[k]),
            n < entries.len() ==> r[n as int] == (TreeLine::More { remaining: (entries.len() - n) as usize }),
        decreases entries.len() - i,
    {
        if i >= max_files && depth == 0 {
            let remaining = entries.len() - i;
            r.push(TreeLine::More { remaining });
            break;
        }
        let e = &entries[i];
        let name = e.name.clone();
        if e.is_dir {
            r.push(TreeLine::Dir { name, descend: depth < MAX_DEPTH });
        } else {
            r.push(TreeLine::File { name });
        }
        i = i + 1;
    }
    r
}

} // verus!
