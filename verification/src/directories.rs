//! Validation of user-selected game and workshop directories: the caller
//! performs the filesystem probes and hands their outcomes in; the rules
//! that combine them into a verdict live here.

use vstd::prelude::*;

use crate::fspath::FsPath;

verus! {

/// Why a directory failed validation.
#[derive(PartialEq, Eq, Structural, Clone, Copy, Debug)]
pub enum DirectoryErrorCode {
    PathNotFound,
    NotADirectory,
    AccessDenied,
    MissingMediaSubdirectory,
    PackagesNotFound,
}

/// The probe outcomes a validation verdict is based on.
#[derive(PartialEq, Eq, Structural, Clone, Copy, Debug)]
pub struct ValidationDetails {
    pub path_exists: bool,
    pub is_directory: bool,
    pub is_readable: bool,
    pub has_media_subdirectory: bool,
}

/// The verdict on one directory.
pub struct DirectoryValidationResult {
    pub valid: bool,
    pub error_code: Option<DirectoryErrorCode>,
    pub message: String,
    pub details: Option<ValidationDetails>,
    pub package_count: Option<usize>,
}

/// Ghost form of the verdict.
pub struct GDirectoryValidationResult {
    pub valid: bool,
    pub error_code: Option<DirectoryErrorCode>,
    pub message: Seq<char>,
    pub details: Option<ValidationDetails>,
    pub package_count: Option<int>,
}

impl View for DirectoryValidationResult {
    type V = GDirectoryValidationResult;

    open spec fn view(&self) -> GDirectoryValidationResult {
        GDirectoryValidationResult {
            valid: self.valid,
            error_code: self.error_code,
            message: self.message@,
            details: self.details,
            package_count: match self.package_count {
                Some(n) => Some(n as int),
                None => None,
            },
        }
    }
}

/// The verdict on a workshop directory: it must exist, be a readable
/// directory, and hold a `media` subdirectory; the package count then
/// reports its immediate subdirectories.
pub open spec fn g_validate_directory(
    path_exists: bool,
    is_directory: bool,
    is_readable: bool,
    has_media_subdirectory: bool,
    package_count: int,
) -> GDirectoryValidationResult {
    if !path_exists {
        GDirectoryValidationResult {
            valid: false,
            error_code: Some(DirectoryErrorCode::PathNotFound),
            message: "The specified path does not exist"@,
            details: Some(
                ValidationDetails {
                    path_exists: false,
                    is_directory: false,
                    is_readable: false,
                    has_media_subdirectory: false,
                },
            ),
            package_count: None,
        }
    } else if !is_directory {
        GDirectoryValidationResult {
            valid: false,
            error_code: Some(DirectoryErrorCode::NotADirectory),
            message: "The path is not a directory"@,
            details: Some(
                ValidationDetails {
                    path_exists: true,
                    is_directory: false,
                    is_readable: false,
                    has_media_subdirectory: false,
                },
            ),
            package_count: None,
        }
    } else if !is_readable {
        GDirectoryValidationResult {
            valid: false,
            error_code: Some(DirectoryErrorCode::AccessDenied),
            message: "Access to the directory is denied"@,
            details: Some(
                ValidationDetails {
                    path_exists: true,
                    is_directory: true,
                    is_readable: false,
                    has_media_subdirectory: false,
                },
            ),
            package_count: None,
        }
    } else if !has_media_subdirectory {
        GDirectoryValidationResult {
            valid: false,
            error_code: Some(DirectoryErrorCode::MissingMediaSubdirectory),
            message: "Directory must contain a 'media' subdirectory"@,
            details: Some(
                ValidationDetails {
                    path_exists: true,
                    is_directory: true,
                    is_readable: true,
                    has_media_subdirectory: false,
                },
            ),
            package_count: None,
        }
    } else {
        GDirectoryValidationResult {
            valid: true,
            error_code: None,
            message: "Directory is valid"@,
            details: Some(
                ValidationDetails {
                    path_exists: true,
                    is_directory: true,
                    is_readable: true,
                    has_media_subdirectory: true,
                },
            ),
            package_count: Some(package_count),
        }
    }
}

/// Validates a workshop directory from the caller's probe outcomes.
pub fn validate_directory(
    path_exists: bool,
    is_directory: bool,
    is_readable: bool,
    has_media_subdirectory: bool,
    package_count: usize,
) -> (r: DirectoryValidationResult)
    ensures
        r@ == g_validate_directory(
            path_exists,
            is_directory,
            is_readable,
            has_media_subdirectory,
            package_count as int,
        ),
{
    if !path_exists {
        DirectoryValidationResult {
            valid: false,
            error_code: Some(DirectoryErrorCode::PathNotFound),
            message: String::from_str("The specified path does not exist"),
            details: Some(
                ValidationDetails {
                    path_exists: false,
                    is_directory: false,
                    is_readable: false,
                    has_media_subdirectory: false,
                },
            ),
            package_count: None,
        }
    } else if !is_directory {
        DirectoryValidationResult {
            valid: false,
            error_code: Some(DirectoryErrorCode::NotADirectory),
            message: String::from_str("The path is not a directory"),
            details: Some(
                ValidationDetails {
                    path_exists: true,
                    is_directory: false,
                    is_readable: false,
                    has_media_subdirectory: false,
                },
            ),
            package_count: None,
        }
    } else if !is_readable {
        DirectoryValidationResult {
            valid: false,
            error_code: Some(DirectoryErrorCode::AccessDenied),
            message: String::from_str("Access to the directory is denied"),
            details: Some(
                ValidationDetails {
                    path_exists: true,
                    is_directory: true,
                    is_readable: false,
                    has_media_subdirectory: false,
                },
            ),
            package_count: None,
        }
    } else if !has_media_subdirectory {
        DirectoryValidationResult {
            valid: false,
            error_code: Some(DirectoryErrorCode::MissingMediaSubdirectory),
            message: String::from_str("Directory must contain a 'media' subdirectory"),
            details: Some(
                ValidationDetails {
                    path_exists: true,
                    is_directory: true,
                    is_readable: true,
                    has_media_subdirectory: false,
                },
            ),
            package_count: None,
        }
    } else {
        DirectoryValidationResult {
            valid: true,
            error_code: None,
            message: String::from_str("Directory is valid"),
            details: Some(
                ValidationDetails {
                    path_exists: true,
                    is_directory: true,
                    is_readable: true,
                    has_media_subdirectory: true,
                },
            ),
            package_count: Some(package_count),
        }
    }
}

/// The candidate package roots probed for a game installation directory,
/// in priority order, de-duplicated.
pub open spec fn g_candidate_packages_dirs(base: Seq<Seq<char>>) -> Seq<Seq<Seq<char>>> {
    if base.len() > 0 && base.last() == "packages"@ {
        seq![base]
    } else {
        let mut0 = seq![
            crate::utils::g_media_candidate(base),
            crate::utils::g_direct_candidate(base),
            crate::utils::g_bundle_candidate(base),
        ];
        let mut1 = if base.len() > 0 && base.last() == "RunningWithRifles.app"@ {
            mut0.push(
                base.push("Contents"@).push("Resources"@).push("media"@).push("packages"@),
            )
        } else {
            mut0
        };
        let mut2 = if base.len() > 0 && base.last() == "Resources"@ {
            mut1.push(crate::utils::g_media_candidate(base))
        } else {
            mut1
        };
        let mut3 = if base.len() > 0 && base.last() == "media"@ {
            mut2.push(crate::utils::g_direct_candidate(base))
        } else {
            mut2
        };
        crate::utils::g_dedup(mut3)
    }
}

/// Enumerates the candidate package roots for a base directory across
/// the supported installation layouts, first-seen order kept.
pub fn candidate_packages_dirs(base: &FsPath) -> (r: Vec<FsPath>)
    ensures
        r@.map_values(|q: FsPath| q@) == g_candidate_packages_dirs(base@),
{
    if base.ends_with_seg("packages") {
        let mut r: Vec<FsPath> = Vec::new();
        r.push(base.duplicate());
        proof {
            assert(r@.map_values(|q: FsPath| q@) =~= seq![base@]);
        }
        return r;
    }
    let mut roots: Vec<FsPath> = Vec::new();
    roots.push(base.child("media").child("packages"));
    roots.push(base.child("packages"));
    roots.push(
        base.child("RunningWithRifles.app").child("Contents").child("Resources").child(
            "media",
        ).child("packages"),
    );
    let ghost base3 = roots@.map_values(|q: FsPath| q@);
    proof {
        assert(base3 =~= seq![
            crate::utils::g_media_candidate(base@),
            crate::utils::g_direct_candidate(base@),
            crate::utils::g_bundle_candidate(base@),
        ]);
    }
    if base.ends_with_seg("RunningWithRifles.app") {
        let ghost m0 = roots@.map_values(|q: FsPath| q@);
        roots.push(base.child("Contents").child("Resources").child("media").child("packages"));
        proof {
            assert(roots@.map_values(|q: FsPath| q@) =~= m0.push(
                base@.push("Contents"@).push("Resources"@).push("media"@).push("packages"@),
            ));
        }
    }
    if base.ends_with_seg("Resources") {
        let ghost m0 = roots@.map_values(|q: FsPath| q@);
        roots.push(base.child("media").child("packages"));
        proof {
            assert(roots@.map_values(|q: FsPath| q@) =~= m0.push(
                crate::utils::g_media_candidate(base@),
            ));
        }
    }
    if base.ends_with_seg("media") {
        let ghost m0 = roots@.map_values(|q: FsPath| q@);
        roots.push(base.child("packages"));
        proof {
            assert(roots@.map_values(|q: FsPath| q@) =~= m0.push(
                crate::utils::g_direct_candidate(base@),
            ));
        }
    }
    // de-duplicate while keeping first-seen order
    let mut out: Vec<FsPath> = Vec::new();
    let mut i: usize = 0;
    let ghost groots = roots@.map_values(|q: FsPath| q@);
    proof {
        assert(groots.subrange(0, 0) =~= Seq::<Seq<Seq<char>>>::empty());
        assert(out@.map_values(|q: FsPath| q@) =~= crate::utils::g_dedup(groots.subrange(0, 0)));
    }
    while i < roots.len()
        invariant
            i <= roots.len(),
            groots == roots@.map_values(|q: FsPath| q@),
            groots.len() == roots@.len(),
            out@.map_values(|q: FsPath| q@) == crate::utils::g_dedup(
                groots.subrange(0, i as int),
            ),
        decreases roots.len() - i,
    {
        let ghost pre = groots.subrange(0, i as int);
        let ghost post = groots.subrange(0, i as int + 1);
        proof {
            assert(post.drop_last() =~= pre);
            assert(post.last() == groots[i as int]);
        }
        crate::utils::push_dedup(&mut out, roots[i].duplicate());
        i = i + 1;
    }
    proof {
        assert(groots.subrange(0, groots.len() as int) =~= groots);
    }
    out
}

/// The verdict on a game installation directory: valid when the base
/// directory is usable and at least one candidate package root exists;
/// the package count then totals the existing roots' subdirectories.
pub open spec fn g_validate_game_install_directory(
    path_exists: bool,
    is_directory: bool,
    is_readable: bool,
    existing_candidates: int,
    package_count: int,
) -> GDirectoryValidationResult {
    if !path_exists {
        g_validate_directory(false, false, false, false, 0)
    } else if !is_directory {
        g_validate_directory(true, false, false, false, 0)
    } else if !is_readable {
        g_validate_directory(true, true, false, false, 0)
    } else if existing_candidates == 0 {
        GDirectoryValidationResult {
            valid: false,
            error_code: Some(DirectoryErrorCode::PackagesNotFound),
            message: "No packages folder found under the selected directory"@,
            details: Some(
                ValidationDetails {
                    path_exists: true,
                    is_directory: true,
                    is_readable: true,
                    has_media_subdirectory: false,
                },
            ),
            package_count: None,
        }
    } else {
        GDirectoryValidationResult {
            valid: true,
            error_code: None,
            message: "Directory is valid"@,
            details: Some(
                ValidationDetails {
                    path_exists: true,
                    is_directory: true,
                    is_readable: true,
                    has_media_subdirectory: true,
                },
            ),
            package_count: Some(package_count),
        }
    }
}

/// Validates a game installation directory from the caller's probe
/// outcomes: how many candidate roots exist and how many packages they
/// hold together.
pub fn validate_game_install_directory(
    path_exists: bool,
    is_directory: bool,
    is_readable: bool,
    existing_candidates: usize,
    package_count: usize,
) -> (r: DirectoryValidationResult)
    ensures
        r@ == g_validate_game_install_directory(
            path_exists,
            is_directory,
            is_readable,
            existing_candidates as int,
            package_count as int,
        ),
{
    if !path_exists {
        validate_directory(false, false, false, false, 0)
    } else if !is_directory {
        validate_directory(true, false, false, false, 0)
    } else if !is_readable {
        validate_directory(true, true, false, false, 0)
    } else if existing_candidates == 0 {
        DirectoryValidationResult {
            valid: false,
            error_code: Some(DirectoryErrorCode::PackagesNotFound),
            message: String::from_str("No packages folder found under the selected directory"),
            details: Some(
                ValidationDetails {
                    path_exists: true,
                    is_directory: true,
                    is_readable: true,
                    has_media_subdirectory: false,
                },
            ),
            package_count: None,
        }
    } else {
        DirectoryValidationResult {
            valid: true,
            error_code: None,
            message: String::from_str("Directory is valid"),
            details: Some(
                ValidationDetails {
                    path_exists: true,
                    is_directory: true,
                    is_readable: true,
                    has_media_subdirectory: true,
                },
            ),
            package_count: Some(package_count),
        }
    }
}

} // verus!
