//! Configuration values, as plain strings, and the home-directory fixup for
//! paths written with a leading tilde.

use vstd::prelude::*;

verus! {

/// Where the remote data sits.
pub struct DataConf {
    pub vcfs_dir: String,
    pub beds_dir: String,
}

/// Where this tool keeps its local work files.
pub struct WorkspaceConf {
    pub work_dir: String,
}

/// Remaining settings: the cutoff date for the job-history query.
pub struct Misc {
    pub start_date: String,
}

/// The tool's configuration.
pub struct Conf {
    pub data: DataConf,
    pub workspace: WorkspaceConf,
    pub misc: Misc,
}

/// A path with a leading `~/` rewritten under the given home directory;
/// any other path unchanged.
pub open spec fn fixed_home_str(file: Seq<char>, home: Seq<char>) -> Seq<char> {
    if file.len() >= 2 && file[0] == '~' && file[1] == '/' {
        home + seq!['/'] + file.skip(2)
    } else {
        file
    }
}

/// Rewrites a leading `~/` to the given home directory.
pub fn fix_home_dir(file: &str, home: &str) -> (r: String)
    ensures
        r@ == fixed_home_str(file@, home@),
{
    proof {
        reveal_strlit("~/");
        reveal_strlit("/");
    }
    match crate::text::strip_prefix_str(file, "~/") {
        Some(file_in_home) => {
            proof {
                assert(file@.take(2)[0] == '~' && file@.take(2)[1] == '/');
            }
            let r = String::from_str(home).concat("/").concat(file_in_home);
            proof {
                assert(r@ =~= home@ + seq!['/'] + file@.skip(2));
            }
            r
        },
        None => {
            proof {
                assert(file@.len() >= 2 && file@[0] == '~' && file@[1] == '/' ==> file@.take(2)
                    =~= "~/"@);
            }
            String::from_str(file)
        },
    }
}

impl WorkspaceConf {
    /// The work directory with a leading `~/` resolved.
    pub fn work_dir_fixed(&self, home: &str) -> (r: String)
        ensures
            r@ == fixed_home_str(self.work_dir@, home@),
    {
        fix_home_dir(self.work_dir.as_str(), home)
    }
}

/// The path of the cached local copy of the configuration file, under the
/// given home directory.
pub fn get_local_conf_file(home: &str) -> (r: String)
    ensures
        r@ == home@ + seq![
            '/', '.', 'c', 'o', 'n', 'f', 'i', 'g', '/', 'u', 'd', 'i', 'x', '/', 'u', 'd', 'i',
            'x', '.', 't', 'o', 'm', 'l',
        ],
{
    proof {
        reveal_strlit("/.config/udix/udix.toml");
    }
    let r = String::from_str(home).concat("/.config/udix/udix.toml");
    proof {
        assert(r@ =~= home@ + seq![
            '/', '.', 'c', 'o', 'n', 'f', 'i', 'g', '/', 'u', 'd', 'i', 'x', '/', 'u', 'd', 'i',
            'x', '.', 't', 'o', 'm', 'l',
        ]);
    }
    r
}

} // verus!
