//! The HTML page of a directory listing.
use vstd::prelude::*;

use crate::http::rfind_char;
use crate::text::{chars_of, concat, slice_of, string_of};

verus! {

/// A file or directory under the public root: its entries (name, and whether
/// it is a file) or the reason they could not be read.
pub struct FilesHtml {
    pub path: String,
    pub dir_entries: Result<Vec<(String, bool)>, String>,
    pub is_file: bool,
}

/// The parent of `path`: the text before its last `/`, or `/`.
pub open spec fn up_path_spec(path: Seq<char>) -> Seq<char> {
    match rfind_char(path, '/') {
        Some(i) => if i == 0 {
            "/"@
        } else {
            path.subrange(0, i as int)
        },
        None => "/"@,
    }
}

/// One line of the listing: a link to the entry, marked as a folder unless
/// it is a file.
pub open spec fn entry_html(path: Seq<char>, name: Seq<char>, is_file: bool) -> Seq<char> {
    "<p><a href=\""@ + path + "/"@ + name + "\">"@ + (if is_file {
        seq![]
    } else {
        "&#x1F4C1 "@
    }) + name + "</a></p>"@
}

/// The lines of all entries, in order.
pub open spec fn entries_html(path: Seq<char>, es: Seq<(String, bool)>) -> Seq<char>
    decreases es.len(),
{
    if es.len() == 0 {
        seq![]
    } else {
        entries_html(path, es.drop_last()) + entry_html(path, es.last().0@, es.last().1)
    }
}

pub open spec fn page_head() -> Seq<char> {
    "<!DOCTYPE html><html><head><title>content</title><link rel=\"stylesheet\" href=\"/static/style.css\"></head><body>"@
}

pub open spec fn upload_form() -> Seq<char> {
    "<hr></hr><form method=\"post\" enctype=\"multipart/form-data\"><div><p><label for=\"file\">Upload to this folder</label></p><p><input type=\"file\" id=\"file\" name=\"file\" multiple /></p></div><div><button>Upload</button></div></form>"@
}

/// The page: a link to the parent, the entries, and an upload form; where
/// the entries could not be read, the reason alone.
pub open spec fn html_spec(f: FilesHtml) -> Seq<char> {
    match f.dir_entries {
        Err(e) => e@,
        Ok(es) => page_head() + "<p><a href=\""@ + up_path_spec(f.path@) + "\"><..></a></p>\n"@
            + entries_html(f.path@, es@) + upload_form() + "</body></html>"@,
    }
}

impl FilesHtml {
    /// A listing of `path` with what was read there.
    pub fn from_listing(path: &str, dir_entries: Result<Vec<(String, bool)>, String>, is_file: bool) -> (r: FilesHtml)
        ensures
            r.path@ == path@,
            r.dir_entries == dir_entries,
            r.is_file == is_file,
    {
        FilesHtml { path: path.to_owned(), dir_entries, is_file }
    }

    /// Where the path lies on disk.
    pub fn syspath(&self) -> (r: String)
        ensures
            r@ == "./public"@ + self.path@,
    {
        string_of(&concat(&chars_of("./public"), &chars_of(self.path.as_str())))
    }

    /// The parent of the path.
    pub fn up_path(&self) -> (r: String)
        ensures
            r@ == up_path_spec(self.path@),
    {
        up_path(self.path.as_str())
    }

    /// The HTML page of the listing.
    pub fn html(&self) -> (r: String)
        ensures
            r@ == html_spec(*self),
    {
        let es = match &self.dir_entries {
            Ok(es) => es,
            Err(e) => {
                return e.clone();
            },
        };
        let path = chars_of(self.path.as_str());
        let mut html = concat(&chars_of(
            "<!DOCTYPE html><html><head><title>content</title><link rel=\"stylesheet\" href=\"/static/style.css\"></head><body>",
        ), &chars_of("<p><a href=\""));
        html = concat(&html, &chars_of(self.up_path().as_str()));
        html = concat(&html, &chars_of("\"><..></a></p>\n"));
        let ghost start = html@;
        let mut i: usize = 0;
        while i < es.len()
            invariant
                i <= es@.len(),
                path@ == self.path@,
                html@ == start + entries_html(path@, es@.subrange(0, i as int)),
            decreases es@.len() - i,
        {
            let name = chars_of(es[i].0.as_str());
            let mut line = concat(&concat(&concat(&chars_of("<p><a href=\""), &path), &chars_of("/")), &name);
            line = concat(&line, &chars_of("\">"));
            if !es[i].1 {
                line = concat(&line, &chars_of("&#x1F4C1 "));
            }
            line = concat(&concat(&line, &name), &chars_of("</a></p>"));
            proof {
                let s = es@.subrange(0, i + 1);
                assert(s.drop_last() =~= es@.subrange(0, i as int));
                assert(line@ =~= entry_html(path@, es@[i as int].0@, es@[i as int].1));
            }
            html = concat(&html, &line);
            proof {
                assert(html@ =~= start + entries_html(path@, es@.subrange(0, i + 1)));
            }
            i = i + 1;
        }
        proof {
            assert(es@.subrange(0, es@.len() as int) =~= es@);
        }
        html = concat(&html, &chars_of(
            "<hr></hr><form method=\"post\" enctype=\"multipart/form-data\"><div><p><label for=\"file\">Upload to this folder</label></p><p><input type=\"file\" id=\"file\" name=\"file\" multiple /></p></div><div><button>Upload</button></div></form>",
        ));
        html = concat(&html, &chars_of("</body></html>"));
        proof {
            assert(html@ =~= html_spec(*self));
        }
        string_of(&html)
    }
}

/// The parent of `path`: the text before its last `/`, or `/`.
pub fn up_path(path: &str) -> (r: String)
    ensures
        r@ == up_path_spec(path@),
{
    let p = chars_of(path);
    match crate::http::rfind_in(&p, '/') {
        Some(i) => if i == 0 {
            "/".to_owned()
        } else {
            string_of(&slice_of(&p, 0, i))
        },
        None => "/".to_owned(),
    }
}

} // verus!
