//! A snapshot of definition files: paths with their text. The scanners
//! and the template resolver work against this snapshot; the shell loads
//! it from disk. A path "exists" exactly when the snapshot holds it.

use vstd::prelude::*;

use crate::fspath::FsPath;
use crate::fspath::joined_path;

verus! {

/// One file of the snapshot.
pub struct FileEntry {
    pub path: FsPath,
    pub content: String,
}

/// Ghost form of one file.
pub struct GFile {
    pub path: Seq<Seq<char>>,
    pub content: Seq<char>,
}

impl View for FileEntry {
    type V = GFile;

    open spec fn view(&self) -> GFile {
        GFile { path: self.path@, content: self.content@ }
    }
}

/// The file snapshot a scan works on.
pub struct FileTable {
    pub files: Vec<FileEntry>,
}

impl View for FileTable {
    type V = Seq<GFile>;

    open spec fn view(&self) -> Seq<GFile> {
        self.files@.map_values(|f: FileEntry| f@)
    }
}

/// The content of the first entry whose path is `p`, if any.
pub open spec fn g_lookup(t: Seq<GFile>, p: Seq<Seq<char>>) -> Option<Seq<char>>
    decreases t.len(),
{
    if t.len() == 0 {
        None
    } else if t[0].path == p {
        Some(t[0].content)
    } else {
        g_lookup(t.subrange(1, t.len() as int), p)
    }
}

impl FileTable {
    /// The content stored under `p`, if the snapshot holds that path.
    pub fn lookup<'a>(&'a self, p: &FsPath) -> (r: Option<&'a String>)
        ensures
            match r {
                Some(c) => g_lookup(self@, p@) == Some(c@),
                None => g_lookup(self@, p@) is None,
            },
    {
        let ghost all = self@;
        proof {
            assert(all.subrange(0, all.len() as int) =~= all);
        }
        let mut i: usize = 0;
        while i < self.files.len()
            invariant
                i <= self.files.len(),
                all == self@,
                all.len() == self.files.len(),
                g_lookup(all, p@) == g_lookup(all.subrange(i as int, all.len() as int), p@),
            decreases self.files.len() - i,
        {
            let ghost rest = all.subrange(i as int, all.len() as int);
            proof {
                assert(rest[0] == all[i as int]);
                assert(rest.subrange(1, rest.len() as int) =~= all.subrange(
                    i as int + 1,
                    all.len() as int,
                ));
            }
            if self.files[i].path.eq_path(p) {
                return Some(&self.files[i].content);
            }
            i = i + 1;
        }
        proof {
            assert(all.subrange(i as int, all.len() as int).len() == 0);
        }
        None
    }

    /// Whether the snapshot holds the path `p`.
    pub fn has(&self, p: &FsPath) -> (r: bool)
        ensures
            r == (g_lookup(self@, p@) is Some),
    {
        match self.lookup(p) {
            Some(_) => true,
            None => false,
        }
    }
}

/// The directory probed as the base-package fallback for template
/// references: `vanilla/<kind_dir>` two levels above the current
/// directory; `None` when the current directory is not deep enough.
pub open spec fn g_fallback_dir(base_dir: Seq<Seq<char>>, kind_dir: Seq<char>) -> Option<
    Seq<Seq<char>>,
> {
    if base_dir.len() >= 2 {
        Some(base_dir.subrange(0, base_dir.len() - 2).push("vanilla"@).push(kind_dir))
    } else {
        None
    }
}

/// Where a template reference resolves to: the path relative to the
/// current directory when the snapshot holds it, else the base-package
/// fallback when the snapshot holds that, else the relative path (so the
/// error can name it).
pub open spec fn g_template_path(
    t: Seq<GFile>,
    base_dir: Seq<Seq<char>>,
    tref: Seq<char>,
    kind_dir: Seq<char>,
) -> Seq<Seq<char>> {
    let direct = joined_path(base_dir, tref);
    if g_lookup(t, direct) is Some {
        direct
    } else {
        match g_fallback_dir(base_dir, kind_dir) {
            Some(fb) => {
                let vanilla = joined_path(fb, tref);
                if g_lookup(t, vanilla) is Some {
                    vanilla
                } else {
                    direct
                }
            },
            None => direct,
        }
    }
}

/// Resolves a template reference against the snapshot, with the
/// base-package fallback.
pub fn locate_template(table: &FileTable, base_dir: &FsPath, template_file: &str, kind_dir: &str) -> (r:
    FsPath)
    ensures
        r@ == g_template_path(table@, base_dir@, template_file@, kind_dir@),
{
    let direct = base_dir.join_rel(template_file);
    if table.has(&direct) {
        return direct;
    }
    match base_dir.ancestor_up(2) {
        Some(packages_dir) => {
            let fb = packages_dir.child("vanilla").child(kind_dir);
            let vanilla = fb.join_rel(template_file);
            proof {
                assert(g_fallback_dir(base_dir@, kind_dir@) == Some(fb@));
            }
            if table.has(&vanilla) {
                vanilla
            } else {
                direct
            }
        },
        None => direct,
    }
}

} // verus!
