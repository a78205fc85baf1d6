//! Content-kind classification by file extension, and the dispatch
//! decision that picks a launch action for a kind.

use vstd::prelude::*;

use crate::strutil::{eq_str, ext_spec, extension, lower_spec, to_lower};

verus! {

/// The closed set of content kinds a search result can carry.
#[derive(Clone, Copy, Debug, PartialEq, Eq, Structural)]
pub enum Kind {
    Pdf,
    Document,
    Text,
    Image,
    Desktop,
    Script,
    App,
    File,
}

/// The two terminal launch actions.
#[derive(Clone, Copy, Debug, PartialEq, Eq, Structural)]
pub enum LaunchAction {
    RunExecutable,
    OpenWithHandler,
}

/// The fixed extension table, applied to an already lower-cased extension.
pub open spec fn kind_of_ext(e: Seq<char>) -> Kind {
    if e == "pdf"@ {
        Kind::Pdf
    } else if e == "docx"@ || e == "doc"@ || e == "odt"@ {
        Kind::Document
    } else if e == "txt"@ || e == "md"@ {
        Kind::Text
    } else if e == "png"@ || e == "jpg"@ || e == "jpeg"@ || e == "webp"@ {
        Kind::Image
    } else if e == "desktop"@ {
        Kind::Desktop
    } else if e == "sh"@ || e == "py"@ || e == "bin"@ || e == "exe"@ {
        Kind::Script
    } else {
        Kind::File
    }
}

/// Classification of a path: its extension, lower-cased, through the
/// fixed table; a path without an extension is a plain file.
pub open spec fn classify_spec(path: Seq<char>) -> Kind {
    match ext_spec(path) {
        Some(e) => kind_of_ext(lower_spec(e)),
        None => Kind::File,
    }
}

pub fn classify(path: &str) -> (k: Kind)
    ensures
        k == classify_spec(path@),
{
    match extension(path) {
        Some(e) => {
            let low = to_lower(e.as_str());
            let l = low.as_str();
            if eq_str(l, "pdf") {
                Kind::Pdf
            } else if eq_str(l, "docx") || eq_str(l, "doc") || eq_str(l, "odt") {
                Kind::Document
            } else if eq_str(l, "txt") || eq_str(l, "md") {
                Kind::Text
            } else if eq_str(l, "png") || eq_str(l, "jpg") || eq_str(l, "jpeg") || eq_str(
                l,
                "webp",
            ) {
                Kind::Image
            } else if eq_str(l, "desktop") {
                Kind::Desktop
            } else if eq_str(l, "sh") || eq_str(l, "py") || eq_str(l, "bin") || eq_str(l, "exe") {
                Kind::Script
            } else {
                Kind::File
            }
        },
        None => Kind::File,
    }
}

/// The label a kind crosses the boundary under.
pub open spec fn kind_label_spec(k: Kind) -> Seq<char> {
    match k {
        Kind::Pdf => "pdf"@,
        Kind::Document => "document"@,
        Kind::Text => "text"@,
        Kind::Image => "image"@,
        Kind::Desktop => "desktop"@,
        Kind::Script => "script"@,
        Kind::App => "app"@,
        Kind::File => "file"@,
    }
}

pub fn kind_label(k: Kind) -> (r: String)
    ensures
        r@ == kind_label_spec(k),
{
    match k {
        Kind::Pdf => String::from_str("pdf"),
        Kind::Document => String::from_str("document"),
        Kind::Text => String::from_str("text"),
        Kind::Image => String::from_str("image"),
        Kind::Desktop => String::from_str("desktop"),
        Kind::Script => String::from_str("script"),
        Kind::App => String::from_str("app"),
        Kind::File => String::from_str("file"),
    }
}

/// Classification under its boundary label.
pub fn infer_kind(path: &str) -> (r: String)
    ensures
        r@ == kind_label_spec(classify_spec(path@)),
{
    kind_label(classify(path))
}

/// The dispatch table: `app` and `file` run the target as an executable;
/// every other label, known or not, goes to the OS default handler.
pub open spec fn launch_action_spec(kind: Seq<char>) -> LaunchAction {
    if kind == "app"@ || kind == "file"@ {
        LaunchAction::RunExecutable
    } else {
        LaunchAction::OpenWithHandler
    }
}

pub fn launch_action(kind: &str) -> (a: LaunchAction)
    ensures
        a == launch_action_spec(kind@),
{
    if eq_str(kind, "app") || eq_str(kind, "file") {
        LaunchAction::RunExecutable
    } else {
        LaunchAction::OpenWithHandler
    }
}

} // verus!
