//! Where the HTML report goes: the directory its built files are copied
//! into, beside the report path, and the page at the report path that
//! forwards to it.

use vstd::prelude::*;
use crate::path::{display, file_stem, join, parent, parse_path, render, PathModel};
use crate::text::{append_chars, from_chars, to_chars};

verus! {

/// The stem that names the report's files: that of `output`, or
/// `modkei-report` when it has none.
pub open spec fn report_stem(output: Seq<char>) -> Seq<char> {
    match file_stem(parse_path(output)) {
        Some(s) => s,
        None => "modkei-report"@,
    }
}

/// The directory the report's files are copied into: `<stem>-files` in the
/// directory of `output`, or in `.` when `output` names no directory.
pub open spec fn serve_dir_spec(output: Seq<char>) -> Seq<char> {
    let dir = match parent(parse_path(output)) {
        Some(d) => if render(d).len() > 0 {
            d
        } else {
            parse_path("."@)
        },
        None => parse_path("."@),
    };
    display(join(dir, parse_path(report_stem(output) + "-files"@)))
}

/// The page written at `output`: it sends the browser on to the copied files.
pub open spec fn redirect_page(output: Seq<char>) -> Seq<char> {
    "<!doctype html><html><head><meta http-equiv=\"refresh\" content=\"0;url=./"@ + report_stem(
        output,
    ) + "-files/\"/></head><body></body></html>"@
}

/// What generating the report at `output` writes besides the built files.
pub struct ReportLayout {
    /// The directory the built files are copied into.
    pub serve_dir: String,
    /// The page written at the report path.
    pub page: String,
}

fn stem_of(output: &str) -> (res: Vec<char>)
    ensures
        res@ == report_stem(output@),
{
    let p = PathModel::from_str(output);
    match p.file_stem() {
        Some(s) => s,
        None => to_chars("modkei-report"),
    }
}

/// The directory the report's built files are copied into: `<stem>-files`
/// beside the report.
pub fn report_serve_dir(output_path: &str) -> (res: String)
    ensures
        res@ == serve_dir_spec(output_path@),
{
    let p = PathModel::from_str(output_path);
    let dir = match p.parent() {
        Some(d) => {
            let r = d.render();
            if r.len() > 0 {
                d
            } else {
                PathModel::from_str(".")
            }
        },
        None => PathModel::from_str("."),
    };
    let mut name = stem_of(output_path);
    append_chars(&mut name, &to_chars("-files"));
    dir.join_chars(&name).display()
}

/// What generating the report at `output_path` writes besides the built
/// files: the directory they go to and the page that forwards to it.
pub fn generate(output_path: &str) -> (res: ReportLayout)
    ensures
        res.serve_dir@ == serve_dir_spec(output_path@),
        res.page@ == redirect_page(output_path@),
{
    let mut page = to_chars("<!doctype html><html><head><meta http-equiv=\"refresh\" content=\"0;url=./");
    append_chars(&mut page, &stem_of(output_path));
    append_chars(&mut page, &to_chars("-files/\"/></head><body></body></html>"));
    ReportLayout { serve_dir: report_serve_dir(output_path), page: from_chars(&page) }
}

} // verus!
