//! What to do for one candidate file: where its content goes, and whether a
//! relative symbolic link must stand for the path it was reached by.
use vstd::prelude::*;

use crate::path::{
    join_spec, parent_spec, relative_path, relative_path_leads_to_target, relative_spec, resolve,
    strip_spec, up_comp, FsPath, PathView,
};

verus! {

/// A symbolic link to create: its place and the text it holds.
pub struct LinkPlan {
    pub at: FsPath,
    pub target: FsPath,
}

/// The work for one candidate file.
pub struct ReplicationPlan {
    /// Where the file's content is copied.
    pub copy_to: FsPath,
    /// The link to (re)create, when the file was reached through one.
    pub link: Option<LinkPlan>,
}

/// Where the content of a file whose canonical path is `canon` goes: under
/// `dest`, at `canon` without `prefix`; nowhere when `canon` is not under `prefix`.
pub open spec fn content_dest(canon: PathView, prefix: PathView, dest: PathView) -> Option<
    PathView,
> {
    match strip_spec(canon, prefix) {
        Some(rest) => Some(join_spec(dest, rest)),
        None => None,
    }
}

/// Where a link stands for `src`: when `src` differs from its canonical path,
/// is itself a symbolic link and lies under `prefix`, at `src` without `prefix`
/// under `dest`.
pub open spec fn link_dest(
    src: PathView,
    canon: PathView,
    prefix: PathView,
    dest: PathView,
    src_is_symlink: bool,
) -> Option<PathView> {
    if canon != src && src_is_symlink {
        match strip_spec(src, prefix) {
            Some(rest) => Some(join_spec(dest, rest)),
            None => None,
        }
    } else {
        None
    }
}

/// The text of a link at `l` that leads to `d`: the relative path from the
/// directory that holds `l` to `d`. None when that directory is `d` itself.
pub open spec fn link_body(l: PathView, d: PathView) -> Option<PathView> {
    if parent_spec(l) == d {
        None
    } else {
        Some(relative_spec(parent_spec(l), d))
    }
}

/// Whether two paths are the same.
pub fn same_path(a: &FsPath, b: &FsPath) -> (r: bool)
    ensures
        r == (a@ == b@),
{
    if a.absolute != b.absolute || a.comps.len() != b.comps.len() {
        assert(a@.absolute != b@.absolute || a@.comps.len() != b@.comps.len());
        return false;
    }
    let mut i: usize = 0;
    while i < a.comps.len()
        invariant
            a.comps@.len() == b.comps@.len(),
            i <= a.comps@.len(),
            forall|k: int| 0 <= k < i ==> #[trigger] a@.comps[k] == b@.comps[k],
        decreases a.comps@.len() - i,
    {
        if a.comps[i] != b.comps[i] {
            assert(a@.comps[i as int] != b@.comps[i as int]);
            return false;
        }
        i = i + 1;
    }
    assert(a@.comps =~= b@.comps);
    true
}

/// Plans the replication of the file reached by `src`, whose canonical path is
/// `canon`, from under `prefix` to under `dest`. Nothing is planned when `canon`
/// is outside `prefix`. Otherwise the content goes to `content_dest`, and when
/// `link_dest` gives a place, a link there holds the relative path from that
/// place to the content.
pub fn plan_replication(
    src: &FsPath,
    canon: &FsPath,
    prefix: &FsPath,
    dest: &FsPath,
    src_is_symlink: bool,
) -> (r: Option<ReplicationPlan>)
    ensures
        match content_dest(canon@, prefix@, dest@) {
            None => r is None,
            Some(d) => {
                &&& r is Some
                &&& r->0.copy_to@ == d
                &&& match link_dest(src@, canon@, prefix@, dest@, src_is_symlink) {
                    None => r->0.link is None,
                    Some(l) => match link_body(l, d) {
                        None => r->0.link is None,
                        Some(b) => {
                            &&& r->0.link is Some
                            &&& r->0.link->0.at@ == l
                            &&& r->0.link->0.target@ == b
                        },
                    },
                }
            },
        },
{
    let rest = match canon.strip_prefix(prefix) {
        Some(rest) => rest,
        None => return None,
    };
    let copy_to = dest.join(&rest);
    if same_path(canon, src) || !src_is_symlink {
        return Some(ReplicationPlan { copy_to, link: None });
    }
    let link_rest = match src.strip_prefix(prefix) {
        Some(link_rest) => link_rest,
        None => return Some(ReplicationPlan { copy_to, link: None }),
    };
    let at = dest.join(&link_rest);
    let dir = at.parent();
    if same_path(&dir, &copy_to) {
        return Some(ReplicationPlan { copy_to, link: None });
    }
    assert(dir@.comps != copy_to@.comps);
    let target = relative_path(&dir, &copy_to);
    Some(ReplicationPlan { copy_to, link: Some(LinkPlan { at, target }) })
}

/// A planned link, read from the directory that holds it, leads to the copied
/// content, when the content's place holds no `..`.
pub proof fn planned_link_leads_to_copy(
    src: PathView,
    canon: PathView,
    prefix: PathView,
    dest: PathView,
    src_is_symlink: bool,
)
    requires
        content_dest(canon, prefix, dest) is Some,
        link_dest(src, canon, prefix, dest, src_is_symlink) is Some,
        link_body(
            link_dest(src, canon, prefix, dest, src_is_symlink)->0,
            content_dest(canon, prefix, dest)->0,
        ) is Some,
        forall|i: int|
            0 <= i < content_dest(canon, prefix, dest)->0.comps.len() ==> #[trigger] content_dest(
                canon,
                prefix,
                dest,
            )->0.comps[i] != up_comp(),
    ensures
        ({
            let l = link_dest(src, canon, prefix, dest, src_is_symlink)->0;
            let d = content_dest(canon, prefix, dest)->0;
            resolve(parent_spec(l).comps, link_body(l, d)->0.comps) == d.comps
        }),
{
    let l = link_dest(src, canon, prefix, dest, src_is_symlink)->0;
    let d = content_dest(canon, prefix, dest)->0;
    relative_path_leads_to_target(parent_spec(l), d);
}

} // verus!
