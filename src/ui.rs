//! The bare upload page.
use vstd::prelude::*;
use vstd::string::StringExecFns;

verus! {

/// The page up to the list of files: the upload form and the list's heading.
pub open spec fn upload_head() -> Seq<char> {
    "<!DOCTYPE html>
<html>
<head>
  <meta charset=\"utf-8\">
  <title>Sharing is caring</title>
</head>
<body>

  <form action=\"\" method=\"post\" enctype=\"multipart/form-data\">
  <input type=\"file\" name=\"upload\" id=\"filename\"></br></br>
  <input type=\"submit\" value=\"upload\">
  </form>

  <hr>
  Files:</br></br>\n"@
}

/// One link per `(uri, name)` entry, in the order given.
pub open spec fn link_lines(res: Seq<(String, String)>) -> Seq<char>
    decreases res.len(),
{
    if res.len() == 0 {
        Seq::empty()
    } else {
        link_lines(res.drop_last()) + "  <a href=\""@ + res.last().0@
            + "\" target=\"_blank\">"@ + res.last().1@ + "</a></br>\n"@
    }
}

/// The upload page listing the `(uri, name)` entries in `res`, in the order given.
/// Each entry is expected once.
pub fn render_ui(res: &Vec<(String, String)>) -> (r: String)
    ensures
        r@ == upload_head() + link_lines(res@) + "</body>\n</html>"@,
{
    let mut page = String::from_str(
        "<!DOCTYPE html>
<html>
<head>
  <meta charset=\"utf-8\">
  <title>Sharing is caring</title>
</head>
<body>

  <form action=\"\" method=\"post\" enctype=\"multipart/form-data\">
  <input type=\"file\" name=\"upload\" id=\"filename\"></br></br>
  <input type=\"submit\" value=\"upload\">
  </form>

  <hr>
  Files:</br></br>\n",
    );
    let mut i: usize = 0;
    while i < res.len()
        invariant
            i <= res@.len(),
            page@ == upload_head() + link_lines(res@.take(i as int)),
        decreases res@.len() - i,
    {
        page.append("  <a href=\"");
        page.append(res[i].0.as_str());
        page.append("\" target=\"_blank\">");
        page.append(res[i].1.as_str());
        page.append("</a></br>\n");
        proof {
            assert(res@.take(i + 1).drop_last() =~= res@.take(i as int));
            assert(upload_head() + link_lines(res@.take(i + 1)) =~= upload_head() + link_lines(
                res@.take(i as int),
            ) + "  <a href=\""@ + res@[i as int].0@ + "\" target=\"_blank\">"@
                + res@[i as int].1@ + "</a></br>\n"@);
        }
        i = i + 1;
    }
    page.append("</body>\n</html>");
    assert(res@.take(res@.len() as int) =~= res@);
    page
}

} // verus!
