//! Mod packaging support: the configuration records and the naming
//! rules. Archiving and file transfer are the shell's job.

use vstd::prelude::*;

use crate::text::chars_to_string;
use crate::weapons::push_str_chars;

verus! {

/// A mod's installer configuration, as read from its config file.
pub struct ModInstallerConfig {
    pub title: String,
    pub description: String,
    pub authors: Vec<String>,
    pub version: String,
    pub game_version: String,
}

/// What the mod reader reports about a bundle.
pub struct OutputConfig {
    pub title: String,
    pub description: String,
    pub authors: Vec<String>,
    pub version: String,
    pub game_version: String,
    pub file_log_info: Vec<String>,
    pub file_path_list: Vec<String>,
    pub readme_content: String,
    pub changelog_content: String,
}

/// The bundle's output file name for a configuration.
pub open spec fn g_output_file_name(c: ModInstallerConfig) -> Seq<char> {
    "[RWRMI]["@ + c.game_version@ + "]"@ + c.title@ + " v"@ + c.version@ + ".zip"@
}

/// Derives the bundle's output file name from its configuration.
pub fn get_output_file_name(config: &ModInstallerConfig) -> (r: String)
    ensures
        r@ == g_output_file_name(*config),
{
    let mut out: Vec<char> = Vec::new();
    push_str_chars(&mut out, "[RWRMI][");
    push_str_chars(&mut out, config.game_version.as_str());
    push_str_chars(&mut out, "]");
    push_str_chars(&mut out, config.title.as_str());
    push_str_chars(&mut out, " v");
    push_str_chars(&mut out, config.version.as_str());
    push_str_chars(&mut out, ".zip");
    proof {
        assert(Seq::<char>::empty() + "[RWRMI]["@ =~= "[RWRMI]["@);
    }
    chars_to_string(&out)
}

/// The backup archive's path under the user's data directory.
pub fn get_backup_path(data_dir: &str) -> (r: String)
    ensures
        r@ == data_dir@ + "/rwrmi/backup.zip"@,
{
    let mut out: Vec<char> = Vec::new();
    push_str_chars(&mut out, data_dir);
    push_str_chars(&mut out, "/rwrmi/backup.zip");
    proof {
        assert(Seq::<char>::empty() + data_dir@ =~= data_dir@);
    }
    chars_to_string(&out)
}

} // verus!
