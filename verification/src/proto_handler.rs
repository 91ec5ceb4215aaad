//! What registering the program as the handler of a link scheme writes down.

use vstd::prelude::*;

verus! {

/// The desktop entry that makes `cli` the handler of links of `scheme`.
pub open spec fn desktop_entry_text(cli: Seq<char>, scheme: Seq<char>) -> Seq<char> {
    "[Desktop Entry]\nType=Application\nName="@ + scheme + " URL Handler\nExec="@ + cli
        + " handle --url %u\nStartupNotify=false\nMimeType=x-scheme-handler/"@ + scheme + ";"@
}

/// The desktop entry that makes the program at `cli` the handler of links of
/// `scheme`: the program is started with the link after `handle --url`.
pub fn desktop_entry(cli: &str, scheme: &str) -> (entry: String)
    ensures
        entry@ == desktop_entry_text(cli@, scheme@),
{
    let mut entry = "[Desktop Entry]\nType=Application\nName=".to_owned();
    entry.append(scheme);
    entry.append(" URL Handler\nExec=");
    entry.append(cli);
    entry.append(" handle --url %u\nStartupNotify=false\nMimeType=x-scheme-handler/");
    entry.append(scheme);
    entry.append(";");
    entry
}

/// The name of the file that holds the desktop entry of a scheme.
pub fn desktop_file_name(scheme: &str) -> (name: String)
    ensures
        name@ == scheme@ + "-url-handler.desktop"@,
{
    let mut name = scheme.to_owned();
    name.append("-url-handler.desktop");
    name
}

/// The media type under which links of a scheme are dispatched.
pub fn mime_type(scheme: &str) -> (name: String)
    ensures
        name@ == "x-scheme-handler/"@ + scheme@,
{
    let mut name = "x-scheme-handler/".to_owned();
    name.append(scheme);
    name
}

} // verus!
