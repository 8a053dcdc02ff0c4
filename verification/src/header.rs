//! Header fields of a response.

use vstd::prelude::*;
use vstd::std_specs::iter::IteratorSpec;

verus! {

/// A byte that a header value may hold: anything from the space upwards but
/// the delete character, and the tab.
pub open spec fn is_value_byte(b: u8) -> bool {
    (b >= 32 && b != 127) || b == 9
}

/// A byte that reads as text: a printable ASCII character or the tab.
pub open spec fn is_text_byte(b: u8) -> bool {
    (32 <= b && b < 127) || b == 9
}

/// Every byte of `v` may stand in a header value.
pub open spec fn is_header_value(v: Seq<u8>) -> bool {
    forall|i: int| 0 <= i < v.len() ==> is_value_byte(#[trigger] v[i])
}

/// Every byte of `v` reads as text.
pub open spec fn is_text_value(v: Seq<u8>) -> bool {
    forall|i: int| 0 <= i < v.len() ==> is_text_byte(#[trigger] v[i])
}

/// The text that the bytes of `v` spell, one character for each byte.
pub open spec fn text_of(v: Seq<u8>) -> Seq<char> {
    Seq::new(v.len(), |i: int| v[i] as char)
}

/// `c` with an upper-case ASCII letter turned into its lower-case one.
pub open spec fn lower(c: char) -> char {
    if 'A' <= c && c <= 'Z' {
        ((c as u8) + 32) as char
    } else {
        c
    }
}

/// `a` and `b` are the same header name: header names do not tell upper-case
/// ASCII letters from lower-case ones.
pub open spec fn same_name(a: Seq<char>, b: Seq<char>) -> bool {
    &&& a.len() == b.len()
    &&& forall|i: int| 0 <= i < a.len() ==> lower(#[trigger] a[i]) == lower(b[i])
}

/// `i` is the place of the first header of `headers` that is named `name`.
pub open spec fn is_first_named(headers: Seq<Header>, name: Seq<char>, i: int) -> bool {
    &&& 0 <= i < headers.len()
    &&& same_name(headers[i]@.name, name)
    &&& forall|j: int| 0 <= j < i ==> !same_name((#[trigger] headers[j])@.name, name)
}

/// No header of `headers` is named `name`.
pub open spec fn none_named(headers: Seq<Header>, name: Seq<char>) -> bool {
    forall|j: int| 0 <= j < headers.len() ==> !same_name((#[trigger] headers[j])@.name, name)
}

/// A character that `http` takes in a header name: a letter, a digit, or one
/// of a few marks.
pub open spec fn is_name_char(c: char) -> bool {
    ||| 'a' <= c && c <= 'z'
    ||| 'A' <= c && c <= 'Z'
    ||| '0' <= c && c <= '9'
    ||| c == '!' || c == '"' || c == '#' || c == '$' || c == '%' || c == '&' || c == '\''
    ||| c == '*' || c == '+' || c == '-' || c == '.' || c == '^' || c == '_' || c == '`'
    ||| c == '|' || c == '~'
}

/// The most characters that a header name can have.
pub open spec fn max_name_len() -> nat {
    65535
}

/// `s` can be the name of a header: not empty, not too long, and made of
/// name characters only.
pub open spec fn is_header_name(s: Seq<char>) -> bool {
    &&& 0 < s.len() <= max_name_len()
    &&& forall|i: int| 0 <= i < s.len() ==> is_name_char(#[trigger] s[i])
}

/// The digit for `n` in base sixteen, with lower-case letters.
pub open spec fn hex_digit(n: int) -> char {
    if n < 10 {
        (48 + n) as char
    } else {
        (87 + n) as char
    }
}

/// `b` in base sixteen, without a leading zero.
pub open spec fn hex(b: u8) -> Seq<char> {
    if b < 16 {
        seq![hex_digit(b as int)]
    } else {
        seq![hex_digit(b as int / 16), hex_digit(b as int % 16)]
    }
}

/// One byte of a value as it is shown: a double quote behind a backslash, a
/// byte that reads as text as itself, any other as `\x` and its number in
/// base sixteen.
pub open spec fn shown_byte(b: u8) -> Seq<char> {
    if b == 34 {
        seq!['\\', '"']
    } else if is_text_byte(b) {
        seq![b as char]
    } else {
        seq!['\\', 'x'] + hex(b)
    }
}

/// The bytes of a value as they are shown, one after the other.
pub open spec fn shown_bytes(v: Seq<u8>) -> Seq<char>
    decreases v.len(),
{
    if v.len() == 0 {
        Seq::empty()
    } else {
        shown_bytes(v.drop_last()) + shown_byte(v.last())
    }
}

/// How `http` shows a header value that is not sensitive in its `Debug`
/// form: the shown bytes between double quotes.
pub open spec fn shown_value(v: Seq<u8>) -> Seq<char> {
    seq!['"'] + shown_bytes(v) + seq!['"']
}

/// How `http` shows a header value in its `Debug` form: a sensitive one as
/// one word, whatever it holds.
pub open spec fn shown(h: HeaderView) -> Seq<char> {
    if h.sensitive {
        "Sensitive"@
    } else {
        shown_value(h.value)
    }
}

/// What a header is, to the contracts.
pub ghost struct HeaderView {
    pub name: Seq<char>,
    pub value: Seq<u8>,
    pub sensitive: bool,
}

/// One header field: its name, its value as the bytes that came over the
/// wire, and whether the value is to be kept from view. The name can be the
/// name of a header, and the value holds only bytes that a header value may
/// hold.
#[derive(Debug, PartialEq, Eq)]
pub struct Header {
    name: String,
    value: Vec<u8>,
    sensitive: bool,
}

impl View for Header {
    type V = HeaderView;

    closed spec fn view(&self) -> HeaderView {
        HeaderView { name: self.name@, value: self.value@, sensitive: self.sensitive }
    }
}

fn name_char(c: char) -> (r: bool)
    ensures
        r == is_name_char(c),
{
    ('a' <= c && c <= 'z') || ('A' <= c && c <= 'Z') || ('0' <= c && c <= '9') || c == '!' || c
        == '"' || c == '#' || c == '$' || c == '%' || c == '&' || c == '\'' || c == '*' || c == '+'
        || c == '-' || c == '.' || c == '^' || c == '_' || c == '`' || c == '|' || c == '~'
}

/// Tells whether a text can be the name of a header.
pub fn header_name_ok(name: &str) -> (r: bool)
    ensures
        r == is_header_name(name@),
{
    broadcast use vstd::string::group_string_axioms;

    let n = name.unicode_len();
    if n == 0 || n > 65535 {
        return false;
    }
    let mut i: usize = 0;
    let mut rest = name.chars();
    while i < n
        invariant
            n == name@.len(),
            i <= n,
            rest.remaining() == name@.skip(i as int),
            forall|j: int| 0 <= j < i ==> is_name_char(#[trigger] name@[j]),
        decreases n - i,
    {
        let c = rest.next().unwrap();
        if !name_char(c) {
            assert(!is_name_char(name@[i as int]));
            return false;
        }
        assert(name@.skip(i as int).drop_first() =~= name@.skip(i + 1));
        i += 1;
    }
    true
}

/// Tells whether bytes can be the value of a header.
pub fn header_value_ok(value: &[u8]) -> (r: bool)
    ensures
        r == is_header_value(value@),
{
    let mut i: usize = 0;
    while i < value.len()
        invariant
            i <= value.len(),
            forall|j: int| 0 <= j < i ==> is_value_byte(#[trigger] value@[j]),
        decreases value.len() - i,
    {
        let b = value[i];
        if !((b >= 32 && b != 127) || b == 9) {
            return false;
        }
        i += 1;
    }
    true
}

impl Header {
    #[verifier::type_invariant]
    spec fn valid(&self) -> bool {
        is_header_name(self.name@) && is_header_value(self.value@)
    }

    /// Makes a header, if the name can be the name of a header and the value
    /// holds no byte that a header value may not hold.
    pub fn new(name: &str, value: &[u8], sensitive: bool) -> (r: Option<Header>)
        ensures
            r is Some <==> is_header_name(name@) && is_header_value(value@),
            r matches Some(h) ==> h@ == (HeaderView {
                name: name@,
                value: value@,
                sensitive,
            }),
    {
        if header_name_ok(name) && header_value_ok(value) {
            Some(
                Header { name: name.to_owned(), value: vstd::slice::slice_to_vec(value), sensitive },
            )
        } else {
            None
        }
    }

    /// The name. It can be the name of a header.
    pub fn name(&self) -> (r: &str)
        ensures
            r@ == self@.name,
            is_header_name(r@),
    {
        proof {
            use_type_invariant(self);
        }
        self.name.as_str()
    }

    /// The bytes of the value. They are bytes that a header value may hold.
    pub fn value(&self) -> (r: &[u8])
        ensures
            r@ == self@.value,
            is_header_value(r@),
    {
        proof {
            use_type_invariant(self);
        }
        self.value.as_slice()
    }

    /// Whether the value is to be kept from view.
    pub fn is_sensitive(&self) -> (r: bool)
        ensures
            r == self@.sensitive,
    {
        self.sensitive
    }

    /// The value as it is shown to a reader: quoted, with escapes, or masked.
    /// It holds no line break.
    pub fn shown(&self) -> (r: String)
        ensures
            r@ == shown(self@),
            !r@.contains('\n'),
    {
        let r = debug_value(self.value(), self.sensitive).unwrap();
        proof {
            lemma_shown_is_one_line(self@);
        }
        r
    }

    /// The value as text, where every byte of it reads as text.
    pub fn text(&self) -> (r: Option<String>)
        ensures
            r is Some <==> is_text_value(self@.value),
            r matches Some(t) ==> t@ == text_of(self@.value),
    {
        value_to_str(self.value())
    }
}

/// The name of a header holds neither a line break nor an escape character.
pub proof fn lemma_name_is_plain(name: Seq<char>)
    requires
        is_header_name(name),
    ensures
        !name.contains('\n'),
        !name.contains('\u{1b}'),
{
    if name.contains('\n') {
        let i = choose|i: int| 0 <= i < name.len() && name[i] == '\n';
        assert(is_name_char(name[i]));
    }
    if name.contains('\u{1b}') {
        let i = choose|i: int| 0 <= i < name.len() && name[i] == '\u{1b}';
        assert(is_name_char(name[i]));
    }
}

/// The shown bytes of a header value hold no line break.
proof fn lemma_shown_bytes_one_line(v: Seq<u8>)
    requires
        is_header_value(v),
    ensures
        !shown_bytes(v).contains('\n'),
    decreases v.len(),
{
    if v.len() > 0 {
        let front = v.drop_last();
        let b = v.last();
        assert(is_value_byte(v[v.len() - 1]));
        assert forall|i: int| 0 <= i < front.len() implies is_value_byte(#[trigger] front[i]) by {
            assert(is_value_byte(v[i]));
        }
        lemma_shown_bytes_one_line(front);
        let head = shown_bytes(front);
        let tail = shown_byte(b);
        assert forall|i: int| 0 <= i < tail.len() implies tail[i] != '\n' by {
            assert(hex(b).len() <= 2);
        }
        if shown_bytes(v).contains('\n') {
            let i = choose|i: int| 0 <= i < shown_bytes(v).len() && shown_bytes(v)[i] == '\n';
            if i < head.len() {
                assert(head[i] == '\n');
                assert(head.contains('\n'));
            } else {
                assert(tail[i - head.len()] == '\n');
            }
        }
    }
}

/// A header value is shown on one line.
pub proof fn lemma_shown_is_one_line(h: HeaderView)
    requires
        is_header_value(h.value),
    ensures
        !shown(h).contains('\n'),
{
    if h.sensitive {
        reveal_strlit("Sensitive");
        let t = "Sensitive"@;
        if t.contains('\n') {
            let i = choose|i: int| 0 <= i < t.len() && t[i] == '\n';
            assert(t[i] != '\n');
        }
    } else {
        lemma_shown_bytes_one_line(h.value);
        let inner = shown_bytes(h.value);
        let t = shown_value(h.value);
        if t.contains('\n') {
            let i = choose|i: int| 0 <= i < t.len() && t[i] == '\n';
            if 1 <= i <= inner.len() {
                assert(inner[i - 1] == '\n');
                assert(inner.contains('\n'));
            }
        }
    }
}

fn to_lower(c: char) -> (r: char)
    ensures
        r == lower(c),
{
    if 'A' <= c && c <= 'Z' {
        let b: u8 = c as u8;
        (b + 32) as char
    } else {
        c
    }
}

/// Tells whether two texts are the same header name.
pub fn names_match(a: &str, b: &str) -> (r: bool)
    ensures
        r == same_name(a@, b@),
{
    broadcast use vstd::string::group_string_axioms;

    let n = a.unicode_len();
    if b.unicode_len() != n {
        return false;
    }
    let mut i: usize = 0;
    let mut xs = a.chars();
    let mut ys = b.chars();
    while i < n
        invariant
            n == a@.len(),
            n == b@.len(),
            i <= n,
            xs.remaining() == a@.skip(i as int),
            ys.remaining() == b@.skip(i as int),
            forall|j: int| 0 <= j < i ==> lower(#[trigger] a@[j]) == lower(b@[j]),
        decreases n - i,
    {
        let x = xs.next().unwrap();
        let y = ys.next().unwrap();
        if to_lower(x) != to_lower(y) {
            assert(lower(a@[i as int]) != lower(b@[i as int]));
            return false;
        }
        assert(a@.skip(i as int).drop_first() =~= a@.skip(i + 1));
        assert(b@.skip(i as int).drop_first() =~= b@.skip(i + 1));
        i += 1;
    }
    true
}

/// Finds the first header that is named `name`.
pub fn find_header(headers: &Vec<Header>, name: &str) -> (r: Option<usize>)
    ensures
        match r {
            Some(i) => is_first_named(headers@, name@, i as int),
            None => none_named(headers@, name@),
        },
{
    let mut i: usize = 0;
    while i < headers.len()
        invariant
            i <= headers.len(),
            forall|j: int| 0 <= j < i ==> !same_name((#[trigger] headers@[j])@.name, name@),
        decreases headers.len() - i,
    {
        if names_match(headers[i].name(), name) {
            return Some(i);
        }
        i += 1;
    }
    None
}

/// Makes a `reqwest::header::HeaderValue` of the bytes with `from_bytes`,
/// which takes them if and only if each is a value byte, marks it with
/// `set_sensitive`, and has it written in its `Debug` form. That form is the
/// one word for a sensitive value; for another it walks the bytes and writes
/// each as `shown_byte` says, between two double quotes.
#[verifier::external_body]
fn debug_value(value: &[u8], sensitive: bool) -> (r: Option<String>)
    ensures
        r is Some <==> is_header_value(value@),
        r matches Some(t) ==> t@ == shown(
            HeaderView { name: Seq::empty(), value: value@, sensitive },
        ),
{
    let mut v = reqwest::header::HeaderValue::from_bytes(value).ok()?;
    v.set_sensitive(sensitive);
    Some(format!("{:?}", v))
}

/// Makes a `reqwest::header::HeaderValue` of the bytes and calls its
/// `to_str`, which yields the bytes as a string if and only if each is a
/// printable ASCII character or a tab. A byte that `from_bytes` refuses is
/// none of these, so nothing is lost where that step fails.
#[verifier::external_body]
fn value_to_str(value: &[u8]) -> (r: Option<String>)
    ensures
        r is Some <==> is_text_value(value@),
        r matches Some(t) ==> t@ == text_of(value@),
{
    reqwest::header::HeaderValue::from_bytes(value).ok()?.to_str().ok().map(|t| t.to_owned())
}

} // verus!
