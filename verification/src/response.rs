//! How a response is laid out for the terminal: the status line, the headers,
//! then the body.

use vstd::prelude::*;
use vstd::string::StringExecFns;
use vstd::string::StringSliceAdditionalSpecFns;
use vstd::utf8::{encode_utf8, valid_utf8};
use crate::header::{
    find_header, is_first_named, is_text_value, lemma_name_is_plain, none_named, shown, text_of,
    Header, HeaderView,
};
use crate::media::{json_pretty, kind_of, media_essence, media_type_verdict, read_essence, MediaType};
use crate::paint::{
    cyan, cyan_code, green, green_code, in_colour, lemma_colour_adds_no_line_break,
    lemma_plain_holds_no_reset, shows,
};

verus! {

/// Why a response cannot be shown.
#[derive(Debug, PartialEq, Eq)]
pub enum ResponseError {
    /// The content type holds a byte that is no text.
    ContentTypeNotText,
    /// The body is no UTF-8.
    BodyNotUtf8,
    /// The body was announced as JSON and could not be laid out.
    JsonFormat { reason: String },
}

impl ResponseError {
    /// The words in which the failure is reported.
    pub fn message(&self) -> (r: String)
        ensures
            r@ == match *self {
                ResponseError::ContentTypeNotText => "failed to convert header to a str"@,
                ResponseError::BodyNotUtf8 => "response body is not valid UTF-8"@,
                ResponseError::JsonFormat { reason } => reason@,
            },
    {
        match self {
            ResponseError::ContentTypeNotText => "failed to convert header to a str".to_owned(),
            ResponseError::BodyNotUtf8 => "response body is not valid UTF-8".to_owned(),
            ResponseError::JsonFormat { reason } => reason.clone(),
        }
    }
}

/// The name of the header that says what kind of body follows.
pub open spec fn content_type() -> Seq<char> {
    "content-type"@
}

/// How many line breaks `s` holds.
pub open spec fn line_breaks(s: Seq<char>) -> nat
    decreases s.len(),
{
    if s.len() == 0 {
        0
    } else {
        line_breaks(s.drop_last()) + if s.last() == '\n' {
            1nat
        } else {
            0nat
        }
    }
}

/// The line breaks of two texts joined are those of the one and of the other.
pub proof fn lemma_line_breaks_add(a: Seq<char>, b: Seq<char>)
    ensures
        line_breaks(a + b) == line_breaks(a) + line_breaks(b),
    decreases b.len(),
{
    if b.len() == 0 {
        assert(a + b =~= a);
    } else {
        assert((a + b).drop_last() =~= a + b.drop_last());
        lemma_line_breaks_add(a, b.drop_last());
    }
}

/// A text in which no line break occurs holds none.
pub proof fn lemma_one_line(s: Seq<char>)
    requires
        !s.contains('\n'),
    ensures
        line_breaks(s) == 0,
    decreases s.len(),
{
    if s.len() > 0 {
        let front = s.drop_last();
        assert(s[s.len() - 1] != '\n');
        if front.contains('\n') {
            let i = choose|i: int| 0 <= i < front.len() && front[i] == '\n';
            assert(s[i] == '\n');
        }
        lemma_one_line(front);
    }
}

/// The status line and the empty line after it.
pub open spec fn status_block(version: Seq<char>, status: Seq<char>) -> Seq<char> {
    version + seq![' '] + status + seq!['\n', '\n']
}

/// Lays out the protocol version and the status.
pub fn status_text(version: &str, status: &str) -> (r: String)
    ensures
        r@ == status_block(version@, status@),
{
    proof {
        reveal_strlit(" ");
        reveal_strlit("\n\n");
    }
    let mut r = version.to_owned();
    r.append(" ");
    r.append(status);
    r.append("\n\n");
    assert(r@ =~= status_block(version@, status@));
    r
}

/// What the content type `value` makes of the result `r`: a failure where
/// it is no text, else the kind that its type and subtype stand for.
pub open spec fn content_type_read(
    value: Seq<u8>,
    r: Result<Option<MediaType>, ResponseError>,
) -> bool {
    if !is_text_value(value) {
        r == Err::<Option<MediaType>, ResponseError>(ResponseError::ContentTypeNotText)
    } else {
        r == Ok::<Option<MediaType>, ResponseError>(
            Some(kind_of(media_essence(text_of(value)))),
        )
    }
}

/// Tells from the headers what kind of body the response carries. The first
/// header named `content-type` decides; with none there is no kind.
pub fn get_content_type(headers: &Vec<Header>) -> (r: Result<Option<MediaType>, ResponseError>)
    ensures
        none_named(headers@, content_type()) ==> r == Ok::<Option<MediaType>, ResponseError>(
            None,
        ),
        forall|i: int|
            is_first_named(headers@, content_type(), i) ==> content_type_read(
                headers@[i]@.value,
                r,
            ),
{
    match find_header(headers, "content-type") {
        None => Ok(None),
        Some(i) => {
            match headers[i].text() {
                None => Err(ResponseError::ContentTypeNotText),
                Some(text) => Ok(Some(media_type_verdict(read_essence(text.as_str())))),
            }
        },
    }
}

/// One header as a line: the name as it is shown, a colon and a space, the
/// value as it is shown.
pub open spec fn header_line(shown_name: Seq<char>, h: HeaderView) -> Seq<char> {
    shown_name + seq![':', ' '] + shown(h) + seq!['\n']
}

/// The lines of `headers`, in their order, under the names `shown_names`.
pub open spec fn header_lines(shown_names: Seq<Seq<char>>, headers: Seq<Header>) -> Seq<char>
    decreases headers.len(),
{
    if headers.len() == 0 {
        Seq::empty()
    } else {
        header_lines(shown_names.drop_last(), headers.drop_last()) + header_line(
            shown_names.last(),
            headers.last()@,
        )
    }
}

/// `shown_names` holds, for each header in turn, its name in green.
pub open spec fn names_in_green(headers: Seq<Header>, shown_names: Seq<Seq<char>>) -> bool {
    &&& shown_names.len() == headers.len()
    &&& forall|i: int|
        0 <= i < headers.len() ==> in_colour(
            green_code(),
            (#[trigger] headers[i])@.name,
            shown_names[i],
        )
}

/// A header under a shown name makes a line with one line break more than
/// the shown name holds: the one at its end.
pub proof fn lemma_header_line_breaks(shown_name: Seq<char>, h: HeaderView)
    requires
        !shown(h).contains('\n'),
    ensures
        line_breaks(header_line(shown_name, h)) == line_breaks(shown_name) + 1,
{
    let mark = seq![':', ' '];
    let end = seq!['\n'];
    lemma_one_line(mark);
    lemma_one_line(shown(h));
    assert(line_breaks(end) == 1) by {
        assert(end.drop_last() =~= Seq::<char>::empty());
        assert(line_breaks(end.drop_last()) == 0);
    }
    lemma_line_breaks_add(shown_name, mark);
    lemma_line_breaks_add(shown_name + mark, shown(h));
    lemma_line_breaks_add(shown_name + mark + shown(h), end);
}

/// Lays out one header under a name that has been coloured already. The
/// line ends in the one line break that it adds to those of the name.
pub fn header_line_text(shown_name: &str, header: &Header) -> (r: String)
    ensures
        r@ == header_line(shown_name@, header@),
        line_breaks(r@) == line_breaks(shown_name@) + 1,
{
    proof {
        reveal_strlit(": ");
        reveal_strlit("\n");
    }
    let mut r = shown_name.to_owned();
    r.append(": ");
    r.append(header.shown().as_str());
    r.append("\n");
    proof {
        assert(r@ =~= header_line(shown_name@, header@));
        lemma_header_line_breaks(shown_name@, header@);
    }
    r
}

/// Lays out the headers, one to a line with its name in green, and the empty
/// line that ends them. There are as many line breaks as headers, and one.
pub fn headers_text(headers: &Vec<Header>) -> (r: String)
    ensures
        exists|shown_names: Seq<Seq<char>>|
            names_in_green(headers@, shown_names) && r@ == header_lines(shown_names, headers@)
                + seq!['\n'],
        line_breaks(r@) == headers.len() + 1,
{
    let mut r = String::new();
    let ghost mut shown_names: Seq<Seq<char>> = Seq::empty();
    let mut i: usize = 0;
    while i < headers.len()
        invariant
            i <= headers.len(),
            names_in_green(headers@.take(i as int), shown_names),
            r@ == header_lines(shown_names, headers@.take(i as int)),
            line_breaks(r@) == i,
        decreases headers.len() - i,
    {
        let ghost so_far = r@;
        let plain_name = headers[i].name();
        let name = green(plain_name);
        let line = header_line_text(name.as_str(), &headers[i]);
        r.append(line.as_str());
        proof {
            let before = headers@.take(i as int);
            let after = headers@.take(i + 1);
            let names = shown_names.push(name@);
            lemma_name_is_plain(plain_name@);
            lemma_plain_holds_no_reset(plain_name@);
            assert(in_colour(green_code(), plain_name@, name@));
            assert(after.drop_last() =~= before);
            assert(names.drop_last() =~= shown_names);
            assert(after.last() == headers@[i as int]);
            assert forall|j: int| 0 <= j < after.len() implies in_colour(
                green_code(),
                (#[trigger] after[j])@.name,
                names[j],
            ) by {
                if j < i {
                    assert(before[j] == after[j]);
                }
            }
            lemma_colour_adds_no_line_break(green_code(), plain_name@, name@);
            lemma_one_line(name@);
            lemma_line_breaks_add(so_far, line@);
            shown_names = names;
        }
        i += 1;
    }
    proof {
        reveal_strlit("\n");
        assert(headers@.take(i as int) =~= headers@);
        let end = seq!['\n'];
        assert(line_breaks(end) == 1) by {
            assert(end.drop_last() =~= Seq::<char>::empty());
            assert(line_breaks(end.drop_last()) == 0);
        }
        lemma_line_breaks_add(r@, end);
    }
    let ghost lines = r@;
    r.append("\n");
    assert(r@ =~= lines + seq!['\n']);
    r
}

/// `std::str::from_utf8`, which reads the bytes as a string slice exactly
/// where they are UTF-8, and then as a slice of these very bytes.
#[verifier::external_body]
fn utf8_text(bytes: &[u8]) -> (r: Option<&str>)
    ensures
        r is Some <==> valid_utf8(bytes@),
        r matches Some(t) ==> t.spec_bytes() == bytes@,
{
    std::str::from_utf8(bytes).ok()
}

/// Reads the bytes of a body as text. A body that is no UTF-8 is a failure.
pub fn decode_body(bytes: &[u8]) -> (r: Result<String, ResponseError>)
    ensures
        match r {
            Ok(t) => valid_utf8(bytes@) && encode_utf8(t@) == bytes@,
            Err(e) => !valid_utf8(bytes@) && e == ResponseError::BodyNotUtf8,
        },
{
    match utf8_text(bytes) {
        Some(t) => Ok(t.to_owned()),
        None => Err(ResponseError::BodyNotUtf8),
    }
}

/// A body and the line break after it.
pub open spec fn body_block(text: Seq<char>) -> Seq<char> {
    text + seq!['\n']
}

/// `r` is `text` shown in cyan, with the line break after it.
pub open spec fn is_cyan_block(text: Seq<char>, r: Seq<char>) -> bool {
    exists|shown: Seq<char>| shows(cyan_code(), text, shown) && r == body_block(shown)
}

/// Lays out a body that was announced as JSON, from what `jsonxf` made of it:
/// the indented text in cyan, or the error.
pub fn json_body_text(pretty: Result<String, String>) -> (r: Result<String, ResponseError>)
    ensures
        match pretty {
            Ok(text) => r matches Ok(t) && is_cyan_block(text@, t@),
            Err(why) => r matches Err(ResponseError::JsonFormat { reason }) && reason@ == why@,
        },
{
    match pretty {
        Ok(text) => {
            proof {
                reveal_strlit("\n");
            }
            let mut r = cyan(text.as_str());
            let ghost shown = r@;
            r.append("\n");
            assert(r@ == body_block(shown));
            Ok(r)
        },
        Err(why) => Err(ResponseError::JsonFormat { reason: why }),
    }
}

/// Lays out the body. A JSON body is indented anew and coloured; any other
/// is given as it came.
pub fn body_text(m: Option<MediaType>, body: &str) -> (r: Result<String, ResponseError>)
    ensures
        match m {
            Some(MediaType::Json) => match json_pretty(body@) {
                Ok(text) => r matches Ok(t) && is_cyan_block(text, t@),
                Err(why) => r matches Err(ResponseError::JsonFormat { reason }) && reason@ == why,
            },
            _ => r matches Ok(t) && t@ == body_block(body@),
        },
{
    match m {
        Some(MediaType::Json) => json_body_text(jsonxf::pretty_print(body)),
        _ => {
            proof {
                reveal_strlit("\n");
            }
            let mut r = body.to_owned();
            r.append("\n");
            Ok(r)
        },
    }
}

} // verus!
