//! The claudio home directory and the project root.
use vstd::prelude::*;
use crate::error::ClaudioError;
use crate::path::{is_absolute, is_absolute_path};
use crate::text::str_eq;

verus! {

/// What a path names on disk.
#[derive(Debug, Clone, Copy, PartialEq, Eq, Structural)]
pub enum PathKind {
    Missing,
    Directory,
    Other,
}

/// The claudio home directory: `CLAUDIO_HOME_DIR` when set (`custom`), which must be an
/// absolute path of an existing directory (`custom_kind` says what it names); else the
/// OS home directory (`os_home`).
pub fn get_claudio_home(custom: Option<&str>, custom_kind: PathKind, os_home: Option<&str>) -> (r: Result<String, ClaudioError>)
    ensures
        match custom {
            Some(c) => if !is_absolute_path(c@) {
                r matches Err(ClaudioError::HomeNotAbsolute(p)) && p@ == c@
            } else if custom_kind == PathKind::Missing {
                r matches Err(ClaudioError::HomeMissing(p)) && p@ == c@
            } else if custom_kind == PathKind::Other {
                r matches Err(ClaudioError::HomeNotDirectory(p)) && p@ == c@
            } else {
                r matches Ok(h) && h@ == c@
            },
            None => match os_home {
                Some(h) => r matches Ok(x) && x@ == h@,
                None => r matches Err(ClaudioError::HomeDirUnknown),
            },
        },
{
    match custom {
        Some(c) => {
            if !is_absolute(c) {
                return Err(ClaudioError::HomeNotAbsolute(c.to_owned()));
            }
            match custom_kind {
                PathKind::Missing => Err(ClaudioError::HomeMissing(c.to_owned())),
                PathKind::Other => Err(ClaudioError::HomeNotDirectory(c.to_owned())),
                PathKind::Directory => Ok(c.to_owned()),
            }
        },
        None => match os_home {
            Some(h) => Ok(h.to_owned()),
            None => Err(ClaudioError::HomeDirUnknown),
        },
    }
}

/// The project root: the first of the start directory and its ancestors (in `dirs`, each
/// with whether it holds a `.claudio/` or `.git/` directory) that is marked and is not the
/// OS home directory; none when the home directory is unknown.
pub fn find_project_root(dirs: &Vec<(String, bool)>, os_home: Option<&str>) -> (r: Option<String>)
    ensures
        match os_home {
            None => r is None,
            Some(h) => match r {
                Some(p) => exists|i: int| 0 <= i < dirs@.len() && {
                    &&& (#[trigger] dirs@[i]).1
                    &&& dirs@[i].0@ != h@
                    &&& p@ == dirs@[i].0@
                    &&& forall|j: int| 0 <= j < i ==> !(dirs@[j].1 && dirs@[j].0@ != h@)
                },
                None => forall|i: int| 0 <= i < dirs@.len() ==> !((#[trigger] dirs@[i]).1 && dirs@[i].0@ != h@),
            },
        },
{
    let h = match os_home {
        None => return None,
        Some(h) => h,
    };
    let n = dirs.len();
    for i in 0..n
        invariant
            n == dirs@.len(),
            os_home == Some(h),
            forall|j: int| 0 <= j < i ==> !((#[trigger] dirs@[j]).1 && dirs@[j].0@ != h@),
    {
        if dirs[i].1 && !str_eq(dirs[i].0.as_str(), h) {
            let p = dirs[i].0.clone();
            assert(dirs@[i as int].1 && dirs@[i as int].0@ != h@ && p@ == dirs@[i as int].0@);
            return Some(p);
        }
    }
    None
}

} // verus!
