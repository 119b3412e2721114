//! Python tools that a project brings along in its virtual environment.
use vstd::prelude::*;

use crate::files;
use crate::files::Files;
use crate::text;

verus! {

/// The path of a tool in the virtual environment of a project: first as POSIX lays it out,
/// then as Windows does.
pub open spec fn venv_path(files: Files, root: Seq<char>, name: Seq<char>) -> Option<Seq<char>> {
    let posix = ".venv/bin/"@ + name;
    let windows = ".venv/Scripts/"@ + name + ".exe"@;
    if files.has(posix) {
        Some(files::below(root, posix))
    } else if files.has(windows) {
        Some(files::below(root, windows))
    } else {
        None
    }
}

pub fn venv_tool(files: &Files, root: &str, name: &str) -> (r: Option<String>)
    ensures
        text::opt_view(r) == venv_path(*files, root@, name@),
{
    let posix = text::cat(".venv/bin/", name);
    if files.is_there(posix.as_str()) {
        return Some(files::join_below(root, posix.as_str()));
    }
    let windows = text::cat3(".venv/Scripts/", name, ".exe");
    if files.is_there(windows.as_str()) {
        return Some(files::join_below(root, windows.as_str()));
    }
    None
}

/// The command for a tool: the one in `.venv/bin`, else the one on the search path.
pub open spec fn tool_command(files: Files, root: Seq<char>, name: Seq<char>) -> Seq<char> {
    if files.has(".venv/bin/"@ + name) {
        files::below(root, ".venv/bin/"@ + name)
    } else {
        name
    }
}

pub fn local_tool(files: &Files, root: &str, name: &str) -> (r: String)
    ensures
        r@ == tool_command(*files, root@, name@),
{
    let local = text::cat(".venv/bin/", name);
    if files.is_there(local.as_str()) {
        files::join_below(root, local.as_str())
    } else {
        name.to_string()
    }
}

/// Whether a tool stands in `.venv/bin`.
pub fn has_local_tool(files: &Files, name: &str) -> (r: bool)
    ensures
        r == files.has(".venv/bin/"@ + name@),
{
    let local = text::cat(".venv/bin/", name);
    files.is_there(local.as_str())
}

/// A tool of the project's own environment is used before one of the system.
pub proof fn law_local_tools_come_first(files: Files, root: Seq<char>, name: Seq<char>)
    ensures
        files.has(".venv/bin/"@ + name) ==> tool_command(files, root, name) == files::below(
            root,
            ".venv/bin/"@ + name,
        ) && venv_path(files, root, name) == Some(files::below(root, ".venv/bin/"@ + name)),
        !files.has(".venv/bin/"@ + name) ==> tool_command(files, root, name) == name,
        !files.has(".venv/bin/"@ + name) && !files.has(".venv/Scripts/"@ + name + ".exe"@)
            ==> venv_path(files, root, name) is None,
        !files.has(".venv/bin/"@ + name) && files.has(".venv/Scripts/"@ + name + ".exe"@)
            ==> venv_path(files, root, name) == Some(
            files::below(root, ".venv/Scripts/"@ + name + ".exe"@),
        ),
{
}

} // verus!
