//! The version of the system.

use vstd::prelude::*;
use vstd::string::{StrSliceExecFns, StringExecFns};
use crate::text::{chars_of, index_of, is_text, lemma_index_of};

verus! {

/// What the system says about its version.
#[derive(Clone, Debug, PartialEq, Eq)]
pub struct VersionInfo {
    pub version: String,
    pub version_patch: String,
    pub arch: String,
    pub os_release_date: String,
    pub os_base_version: String,
}

/// The first line of `text`: what stands before its first line feed, or all
/// of it where it has none.
pub open spec fn first_line(text: Seq<char>) -> Seq<char> {
    text.take(index_of(text, '\n'))
}

/// The version as it is shown: the patch level is left out where it is `0`.
pub open spec fn title_of(version: Seq<char>, patch: Seq<char>, arch: Seq<char>) -> Seq<char> {
    if patch == "0"@ {
        version + " ("@ + arch + ")"@
    } else {
        version + "-p"@ + patch + " ("@ + arch + ")"@
    }
}

/// The first line of `text`.
pub fn first_line_of(text: &str) -> (line: String)
    ensures
        line@ == first_line(text@),
{
    let chars = chars_of(text);
    let mut i: usize = 0;
    while i < chars.len() && chars[i] != '\n'
        invariant
            i <= chars.len(),
            forall|k: int| 0 <= k < i ==> chars@[k] != '\n',
        decreases chars.len() - i,
    {
        i += 1;
    }
    proof {
        lemma_index_of(text@, '\n', i as int);
    }
    text.substring_char(0, i).to_owned()
}

impl VersionInfo {
    /// The version that the files and the commands of the system give: of
    /// each file the first line counts.
    pub fn get(
        version_file: &str,
        version_patch_file: &str,
        arch: String,
        buildtime_file: &str,
        os_base_version: String,
    ) -> (info: VersionInfo)
        ensures
            info.version@ == first_line(version_file@),
            info.version_patch@ == first_line(version_patch_file@),
            info.arch == arch,
            info.os_release_date@ == first_line(buildtime_file@),
            info.os_base_version == os_base_version,
    {
        VersionInfo {
            version: first_line_of(version_file),
            version_patch: first_line_of(version_patch_file),
            arch,
            os_release_date: first_line_of(buildtime_file),
            os_base_version,
        }
    }

    /// The version as it is shown.
    pub fn title(&self) -> (title: String)
        ensures
            title@ == title_of(self.version@, self.version_patch@, self.arch@),
    {
        let patch = chars_of(self.version_patch.as_str());
        let mut title = self.version.clone();
        if !is_text(patch.as_slice(), "0") {
            title.append("-p");
            title.append(self.version_patch.as_str());
        }
        title.append(" (");
        title.append(self.arch.as_str());
        title.append(")");
        title
    }
}

} // verus!
