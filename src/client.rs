use crate::network::{MultipartBody, PartView};
use vstd::prelude::*;
use vstd::string::*;

verus! {

/// Where file uploads go; uploads have a host of their own.
pub const UPLOAD_URL: &'static str = "https://upload.box.com/api/2.0/files/content";

pub open spec fn hex_digit(d: u32) -> char {
    "0123456789abcdef"@[d as int]
}

/// How one character is written inside a JSON string literal: quote and
/// backslash escaped, the controls with a short escape where JSON has one and
/// as `\u00XX` otherwise, every other character as it is.
pub open spec fn escape_char(c: char) -> Seq<char> {
    let n = c as u32;
    if c == '"' {
        "\\\""@
    } else if c == '\\' {
        "\\\\"@
    } else if n == 8 {
        "\\b"@
    } else if n == 9 {
        "\\t"@
    } else if n == 10 {
        "\\n"@
    } else if n == 12 {
        "\\f"@
    } else if n == 13 {
        "\\r"@
    } else if n < 32 {
        "\\u00"@ + seq![hex_digit(n / 16), hex_digit(n % 16)]
    } else {
        seq![c]
    }
}

pub open spec fn escaped(s: Seq<char>) -> Seq<char>
    decreases s.len(),
{
    if s.len() == 0 {
        seq![]
    } else {
        escaped(s.drop_last()) + escape_char(s.last())
    }
}

/// The JSON string literal of a text.
pub open spec fn json_string(s: Seq<char>) -> Seq<char> {
    "\""@ + escaped(s) + "\""@
}

/// Relies on serde_json's `Value::String` and its `Display`: the compact JSON
/// text of a string value is the string in quotes, with each character
/// written as `escape_char` says (`format_escaped_str_contents` and its
/// `ESCAPE` table).
#[verifier::external_body]
fn to_json_string(s: &str) -> (r: String)
    ensures
        r@ == json_string(s@),
{
    serde_json::Value::String(s.to_owned()).to_string()
}

/// The upload attributes: the file's name and the folder it goes into.
pub open spec fn attributes_text(file_name: Seq<char>, folder_id: Seq<char>) -> Seq<char> {
    "{\"name\":"@ + json_string(file_name) + ",\"parent\":{\"id\":"@ + json_string(folder_id)
        + "}}"@
}

/// The JSON object `{"name": <file_name>, "parent": {"id": <folder_id>}}`.
pub fn attributes_json(file_name: &str, folder_id: &str) -> (r: String)
    ensures
        r@ == attributes_text(file_name@, folder_id@),
{
    let name = to_json_string(file_name);
    let id = to_json_string(folder_id);
    "{\"name\":".to_owned().concat(name.as_str()).concat(",\"parent\":{\"id\":").concat(
        id.as_str(),
    ).concat("}}")
}

/// The multipart body of an upload: one `attributes` text part naming the
/// file and its folder, then one `file` part streamed from `path`.
pub fn upload_form(file_name: &str, folder_id: &str, path: &str) -> (r: MultipartBody)
    ensures
        r@ == seq![
            PartView::Text { name: "attributes"@, value: attributes_text(file_name@, folder_id@) },
            PartView::Stream { name: "file"@, path: path@ },
        ],
{
    let attributes = attributes_json(file_name, folder_id);
    let r = MultipartBody::new().with_text_part("attributes", attributes.as_str()).with_stream_part(
        "file",
        path,
    );
    assert(r@ =~= seq![
        PartView::Text { name: "attributes"@, value: attributes_text(file_name@, folder_id@) },
        PartView::Stream { name: "file"@, path: path@ },
    ]);
    r
}

} // verus!
