use vstd::prelude::*;
use vstd::string::*;
use crate::text::{chars_of, push_chars, same_text, string_of, strip_prefix_chars, without_prefix};

verus! {

/// One entry of a directory listing of the theme repository.
#[derive(Debug, Clone)]
pub struct GitHubContent {
    pub name: String,
    pub path: String,
    pub kind: String,
}

impl GitHubContent {
    /// Whether the entry is a file.
    pub fn is_file(&self) -> (out: bool)
        ensures
            out == (self.kind@ == "file"@),
    {
        same_text(self.kind.as_str(), "file")
    }

    /// Whether the entry is a directory.
    pub fn is_dir(&self) -> (out: bool)
        ensures
            out == (self.kind@ == "dir"@),
    {
        same_text(self.kind.as_str(), "dir")
    }
}

/// The owner of the theme repository.
pub const REPO_OWNER: &'static str = "arjunkomath";

/// The name of the theme repository.
pub const REPO_NAME: &'static str = "rustyink-themes";

/// What is sent as user agent when the repository is asked.
pub const USER_AGENT_NAME: &'static str = "RustyInk";

/// What to do with one entry of a listing.
#[derive(Debug)]
pub enum ThemeStep {
    /// Download the file at `from` and write it to `to`.
    Download { from: String, to: String },
    /// List the directory `folder` and go through its entries.
    Descend { folder: String },
    /// Leave the entry alone.
    Skip,
}

/// The address of the listing of `folder`.
pub open spec fn listing_url(owner: Seq<char>, repo: Seq<char>, folder: Seq<char>) -> Seq<char> {
    "https://api.github.com/repos/"@ + owner + "/"@ + repo + "/contents/"@ + folder
}

/// The address of the raw file at `path`.
pub open spec fn raw_url(owner: Seq<char>, repo: Seq<char>, path: Seq<char>) -> Seq<char> {
    "https://raw.githubusercontent.com/"@ + owner + "/"@ + repo + "/master/"@ + path
}

/// The address at which the repository lists the directory `folder`.
pub fn contents_url(owner: &str, repo: &str, folder: &str) -> (out: String)
    ensures
        out@ == listing_url(owner@, repo@, folder@),
{
    let mut out = "https://api.github.com/repos/".to_owned();
    out.append(owner);
    out.append("/");
    out.append(repo);
    out.append("/contents/");
    out.append(folder);
    out
}

/// What to do with `item`, found while listing `folder` of the theme
/// `theme` for the project in `project_dir`: a file is downloaded to its
/// path with the project directory in place of the theme's name at its
/// beginning, a directory is listed in turn, anything else is left alone.
pub fn plan_item(
    item: &GitHubContent,
    project_dir: &str,
    theme: &str,
    owner: &str,
    repo: &str,
    folder: &str,
) -> (out: ThemeStep)
    ensures
        item.kind@ == "file"@ ==> (out matches ThemeStep::Download { from, to } && from@ == raw_url(
            owner@,
            repo@,
            item.path@,
        ) && to@ == project_dir@ + without_prefix(item.path@, theme@)),
        item.kind@ != "file"@ && item.kind@ == "dir"@ ==> (out matches ThemeStep::Descend {
            folder: inner,
        } && inner@ == folder@ + "/"@ + item.name@),
        item.kind@ != "file"@ && item.kind@ != "dir"@ ==> out is Skip,
{
    if item.is_file() {
        let mut local = chars_of(project_dir);
        push_chars(
            &mut local,
            &strip_prefix_chars(&chars_of(item.path.as_str()), &chars_of(theme)),
        );
        let to = string_of(&local);
        let mut from = "https://raw.githubusercontent.com/".to_owned();
        from.append(owner);
        from.append("/");
        from.append(repo);
        from.append("/master/");
        from.append(item.path.as_str());
        ThemeStep::Download { from, to }
    } else if item.is_dir() {
        let mut inner = folder.to_owned();
        inner.append("/");
        inner.append(item.name.as_str());
        ThemeStep::Descend { folder: inner }
    } else {
        ThemeStep::Skip
    }
}

} // verus!
