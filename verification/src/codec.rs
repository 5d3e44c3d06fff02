//! The JSON wire codec.
//!
//! Every frame on the wire is one UTF-8 JSON object followed by a single
//! zero sentinel.  A response is encoded canonically as
//! `{"id":ID,"status":STATUS,"message":MESSAGE}` where ID and MESSAGE are
//! JSON strings with `"`, `\` and control characters escaped, and STATUS is
//! one of the strings `"Processing"`, `"Ok"`, `"Error"`.

use vstd::prelude::*;

use vstd::string::StrSliceExecFns;
use vstd::string::StringExecFns;

use crate::errors::ServerError;
use crate::message::{CommandStatus, Request, Response, SpecResponse};
use crate::parse::{
    hex_val, skip_ws, skip_value_x, spec_escape, spec_hex4, spec_skip_value, spec_str_body,
    str_body_x, ws_skip,
};

verus! {

/// The characters `{"id":"` that open every encoded response.
pub open spec fn id_prefix() -> Seq<char> {
    seq!['{', '"', 'i', 'd', '"', ':', '"']
}

/// The characters `","status":"` between the id and the status.
pub open spec fn status_mid() -> Seq<char> {
    seq!['"', ',', '"', 's', 't', 'a', 't', 'u', 's', '"', ':', '"']
}

/// The characters `","message":"` between the status and the message.
pub open spec fn message_mid() -> Seq<char> {
    seq!['"', ',', '"', 'm', 'e', 's', 's', 'a', 'g', 'e', '"', ':', '"']
}

/// The characters `"}` that close every encoded response.
pub open spec fn obj_close() -> Seq<char> {
    seq!['"', '}']
}

/// The JSON string spelling of each status variant.
pub open spec fn status_chars(s: CommandStatus) -> Seq<char> {
    match s {
        CommandStatus::Processing => seq!['P', 'r', 'o', 'c', 'e', 's', 's', 'i', 'n', 'g'],
        CommandStatus::Okay => seq!['O', 'k'],
        CommandStatus::Error => seq!['E', 'r', 'r', 'o', 'r'],
    }
}

/// The uppercase hexadecimal digit of a value below 16.
pub open spec fn hex_digit(n: int) -> char {
    if n < 10 {
        (48 + n) as char
    } else {
        (55 + n) as char
    }
}

/// How one character of a JSON string is written on the wire: `"` and `\`
/// get a backslash escape, control characters a `\u00XX` escape, and every
/// other character stands for itself.
pub open spec fn esc_char(c: char) -> Seq<char> {
    if c == '"' {
        seq!['\\', '"']
    } else if c == '\\' {
        seq!['\\', '\\']
    } else if (c as u32) < 32 {
        seq!['\\', 'u', '0', '0', hex_digit(((c as u32) / 16) as int), hex_digit(
            ((c as u32) % 16) as int,
        )]
    } else {
        seq![c]
    }
}

/// The escaped form of a whole string.
pub open spec fn esc_chars(s: Seq<char>) -> Seq<char>
    decreases s.len(),
{
    if s.len() == 0 {
        Seq::empty()
    } else {
        esc_char(s[0]) + esc_chars(s.drop_first())
    }
}

/// The canonical encoding of a response.
pub open spec fn spec_encode_response(r: SpecResponse) -> Seq<char> {
    id_prefix() + esc_chars(r.id) + status_mid() + status_chars(r.status) + message_mid()
        + esc_chars(r.message) + obj_close()
}

/// One frame: the encoded response followed by the single zero sentinel.
pub open spec fn spec_frame(r: SpecResponse) -> Seq<char> {
    spec_encode_response(r).push('\u{0}')
}

/// No character of `s` is the zero sentinel.
pub open spec fn zero_free(s: Seq<char>) -> bool {
    forall|i: int| 0 <= i < s.len() ==> s[i] != '\u{0}'
}

/// Relies on `String::push`: appends exactly the given character.
#[verifier::external_body]
fn push_char(s: &mut String, c: char)
    ensures
        final(s)@ == old(s)@.push(c),
{
    s.push(c);
}

/// Escaping distributes over concatenation.
proof fn lemma_esc_chars_app(a: Seq<char>, b: Seq<char>)
    ensures
        esc_chars(a + b) == esc_chars(a) + esc_chars(b),
    decreases a.len(),
{
    if a.len() == 0 {
        assert(a + b =~= b);
        assert(esc_chars(a) + esc_chars(b) =~= esc_chars(b));
    } else {
        assert((a + b).drop_first() =~= a.drop_first() + b);
        lemma_esc_chars_app(a.drop_first(), b);
        assert(esc_chars(a) + esc_chars(b) =~= esc_char(a[0]) + esc_chars(a.drop_first())
            + esc_chars(b));
    }
}

/// Escaping one more character appends its escape.
proof fn lemma_esc_chars_snoc(s: Seq<char>, i: int)
    requires
        0 <= i < s.len(),
    ensures
        esc_chars(s.take(i + 1)) == esc_chars(s.take(i)) + esc_char(s[i]),
{
    assert(s.take(i + 1) =~= s.take(i) + seq![s[i]]);
    lemma_esc_chars_app(s.take(i), seq![s[i]]);
    assert(seq![s[i]].drop_first() =~= Seq::<char>::empty());
    assert(esc_chars(Seq::<char>::empty()) =~= Seq::<char>::empty());
    assert(esc_chars(seq![s[i]]) =~= esc_char(s[i]));
}

/// The uppercase hexadecimal digit of a value below 16.
fn hex_digit_x(n: u8) -> (c: char)
    requires
        n < 16,
    ensures
        c == hex_digit(n as int),
{
    if n < 10 {
        (48 + n) as char
    } else {
        (55 + n) as char
    }
}

/// Appends the escaped form of `s` to `out`.
fn push_escaped(out: &mut String, s: &str)
    ensures
        final(out)@ == old(out)@ + esc_chars(s@),
{
    let ghost start = out@;
    let n = s.unicode_len();
    let mut i: usize = 0;
    while i < n
        invariant
            n == s@.len(),
            i <= n,
            out@ == start + esc_chars(s@.take(i as int)),
        decreases n - i,
    {
        let c = s.get_char(i);
        if c == '"' {
            push_char(out, '\\');
            push_char(out, '"');
        } else if c == '\\' {
            push_char(out, '\\');
            push_char(out, '\\');
        } else if (c as u32) < 32 {
            let v: u32 = c as u32;
            push_char(out, '\\');
            push_char(out, 'u');
            push_char(out, '0');
            push_char(out, '0');
            push_char(out, hex_digit_x((v / 16) as u8));
            push_char(out, hex_digit_x((v % 16) as u8));
        } else {
            push_char(out, c);
        }
        proof {
            lemma_esc_chars_snoc(s@, i as int);
            assert(out@ =~= start + esc_chars(s@.take(i + 1)));
        }
        i += 1;
    }
    proof {
        assert(s@.take(n as int) =~= s@);
    }
}

/// The JSON string spelling of a status.
pub fn status_str(s: CommandStatus) -> (r: &'static str)
    ensures
        r@ == status_chars(s),
{
    match s {
        CommandStatus::Processing => {
            let r = "Processing";
            proof {
                reveal_strlit("Processing");
                assert(r@ =~= status_chars(CommandStatus::Processing));
            }
            r
        },
        CommandStatus::Okay => {
            let r = "Ok";
            proof {
                reveal_strlit("Ok");
                assert(r@ =~= status_chars(CommandStatus::Okay));
            }
            r
        },
        CommandStatus::Error => {
            let r = "Error";
            proof {
                reveal_strlit("Error");
                assert(r@ =~= status_chars(CommandStatus::Error));
            }
            r
        },
    }
}

/// Encodes a response canonically, with no zero sentinel appended.
pub fn encode_response(r: &Response) -> (out: String)
    ensures
        out@ == spec_encode_response(r@),
{
    let mut out = String::new();
    out.append("{\"id\":\"");
    proof {
        reveal_strlit("{\"id\":\"");
        assert(out@ =~= id_prefix());
    }
    push_escaped(&mut out, r.id.as_str());
    out.append("\",\"status\":\"");
    proof {
        reveal_strlit("\",\"status\":\"");
        assert(out@ =~= id_prefix() + esc_chars(r.id@) + status_mid());
    }
    out.append(status_str(r.status));
    out.append("\",\"message\":\"");
    proof {
        reveal_strlit("\",\"message\":\"");
        assert(out@ =~= id_prefix() + esc_chars(r.id@) + status_mid() + status_chars(r.status)
            + message_mid());
    }
    push_escaped(&mut out, r.message.as_str());
    out.append("\"}");
    proof {
        reveal_strlit("\"}");
        assert(out@ =~= spec_encode_response(r@));
    }
    out
}

/// Encodes a response and appends the zero sentinel: one whole frame.
pub fn encode_frame(r: &Response) -> (out: String)
    ensures
        out@ == spec_frame(r@),
{
    let mut out = encode_response(r);
    push_char(&mut out, '\u{0}');
    out
}

/// The escape of one character is free of the zero sentinel.
proof fn lemma_esc_char_zero_free(c: char)
    ensures
        zero_free(esc_char(c)),
{
    let e = esc_char(c);
    if c == '"' || c == '\\' {
        assert forall|i: int| 0 <= i < e.len() implies e[i] != '\u{0}' by {
            if i == 0 {
                assert(e[0] == '\\');
            } else {
                assert(e[1] != '\u{0}');
            }
        }
    } else if (c as u32) < 32 {
        let hi = hex_digit(((c as u32) / 16) as int);
        let lo = hex_digit(((c as u32) % 16) as int);
        assert(0 <= ((c as u32) / 16) as int);
        assert((((c as u32) / 16) as int) < 16);
        assert(0 <= ((c as u32) % 16) as int);
        assert((((c as u32) % 16) as int) < 16);
        assert(hi as int >= 48 && lo as int >= 48);
        assert forall|i: int| 0 <= i < e.len() implies e[i] != '\u{0}' by {
            if i == 4 {
                assert(e[4] == hi);
            } else if i == 5 {
                assert(e[5] == lo);
            } else {
                assert(e[0] == '\\' && e[1] == 'u' && e[2] == '0' && e[3] == '0');
            }
        }
    } else {
        assert(e[0] == c && c as u32 >= 32);
    }
}

/// The escaped form of any string is free of the zero sentinel.
proof fn lemma_esc_chars_zero_free(s: Seq<char>)
    ensures
        zero_free(esc_chars(s)),
    decreases s.len(),
{
    if s.len() != 0 {
        lemma_esc_chars_zero_free(s.drop_first());
        lemma_esc_char_zero_free(s[0]);
    }
}

/// The characters of a string, in order.
pub fn str_to_chars(s: &str) -> (v: Vec<char>)
    ensures
        v@ == s@,
{
    let n = s.unicode_len();
    let mut v: Vec<char> = Vec::new();
    let mut i: usize = 0;
    while i < n
        invariant
            n == s@.len(),
            i <= n,
            v@ == s@.take(i as int),
        decreases n - i,
    {
        v.push(s.get_char(i));
        proof {
            assert(s@.take(i as int).push(s@[i as int]) =~= s@.take(i + 1));
        }
        i += 1;
    }
    proof {
        assert(s@.take(n as int) =~= s@);
    }
    v
}

/// The string holding exactly the given characters.
pub fn chars_to_string(v: Vec<char>) -> (s: String)
    ensures
        s@ == v@,
{
    let mut out = String::new();
    let mut i: usize = 0;
    while i < v.len()
        invariant
            i <= v@.len(),
            out@ == v@.take(i as int),
        decreases v@.len() - i,
    {
        push_char(&mut out, v[i]);
        proof {
            assert(v@.take(i as int).push(v@[i as int]) =~= v@.take(i + 1));
        }
        i += 1;
    }
    proof {
        assert(v@.take(v@.len() as int) =~= v@);
    }
    out
}

/// The view of an optional character vector.
pub open spec fn opt_view(o: Option<Vec<char>>) -> Option<Seq<char>> {
    match o {
        Some(v) => Some(v@),
        None => None,
    }
}

/// The members of a request object from the first key's quote on, through
/// the closing brace.  Collects the string value of the one `id` member;
/// a second `id`, or an `id` holding no string, rejects the object; every
/// other member is validated and ignored.
pub open spec fn spec_req_members(s: Seq<char>, i: int, found: Option<Seq<char>>) -> Option<
    (Option<Seq<char>>, int),
>
    decreases s.len() - i,
{
    if !(0 <= i < s.len() && s[i] == '"') {
        None
    } else {
        match spec_str_body(s, i + 1) {
            Some((k, j)) => {
                let j2 = skip_ws(s, j);
                if j2 < s.len() && s[j2] == ':' {
                    let p = skip_ws(s, j2 + 1);
                    if i < p <= s.len() {
                        if k == seq!['i', 'd'] && found is Some {
                            None
                        } else {
                            let step: Option<(Option<Seq<char>>, int)> = if k == seq!['i', 'd'] {
                                if p < s.len() && s[p] == '"' {
                                    match spec_str_body(s, p + 1) {
                                        Some((v, q)) => Some((Some(v), q)),
                                        None => None,
                                    }
                                } else {
                                    None
                                }
                            } else {
                                match spec_skip_value(s, p) {
                                    Some(q) => Some((found, q)),
                                    None => None,
                                }
                            };
                            match step {
                                Some((nf, q)) => {
                                    let r = skip_ws(s, q);
                                    if r < s.len() && s[r] == ',' {
                                        let m = skip_ws(s, r + 1);
                                        if i < m <= s.len() {
                                            spec_req_members(s, m, nf)
                                        } else {
                                            None
                                        }
                                    } else if r < s.len() && s[r] == '}' {
                                        Some((nf, r + 1))
                                    } else {
                                        None
                                    }
                                },
                                None => None,
                            }
                        }
                    } else {
                        None
                    }
                } else {
                    None
                }
            },
            None => None,
        }
    }
}

/// What a well-formed request text holds: the decoded `id` of a JSON
/// object carrying exactly one `id` member with a string value, with
/// nothing but whitespace around the object.
pub open spec fn spec_parse_request(s: Seq<char>) -> Option<Seq<char>> {
    let i = skip_ws(s, 0);
    if 0 <= i < s.len() && s[i] == '{' {
        let j = skip_ws(s, i + 1);
        if j < s.len() && s[j] == '}' {
            None
        } else {
            match spec_req_members(s, j, None) {
                Some((found, e)) => if skip_ws(s, e) == s.len() {
                    found
                } else {
                    None
                },
                None => None,
            }
        }
    } else {
        None
    }
}

/// Whether a key equals `id`.
fn key_is_id(k: &Vec<char>) -> (b: bool)
    ensures
        b == (k@ == seq!['i', 'd']),
{
    let b = k.len() == 2 && k[0] == 'i' && k[1] == 'd';
    proof {
        if b {
            assert(k@ =~= seq!['i', 'd']);
        }
    }
    b
}

/// The members of a request object from the first key's quote on.
fn req_members_x(s: &Vec<char>, i: usize, found: Option<Vec<char>>) -> (r: Option<
    (Option<Vec<char>>, usize),
>)
    requires
        i <= s@.len(),
    ensures
        match r {
            Some((nf, e)) => spec_req_members(s@, i as int, opt_view(found)) == Some(
                (opt_view(nf), e as int),
            ) && e <= s@.len(),
            None => spec_req_members(s@, i as int, opt_view(found)) is None,
        },
    decreases s@.len() - i,
{
    if !(i < s.len() && s[i] == '"') {
        return None;
    }
    match str_body_x(s, i + 1) {
        Some((k, j)) => {
            let j2 = ws_skip(s, j);
            if j2 < s.len() && s[j2] == ':' {
                let p = ws_skip(s, j2 + 1);
                if p > i {
                    let idk = key_is_id(&k);
                    if idk && found.is_some() {
                        return None;
                    }
                    let step: Option<(Option<Vec<char>>, usize)> = if idk {
                        if p < s.len() && s[p] == '"' {
                            match str_body_x(s, p + 1) {
                                Some((v, q)) => Some((Some(v), q)),
                                None => None,
                            }
                        } else {
                            None
                        }
                    } else {
                        match skip_value_x(s, p) {
                            Some(q) => Some((found, q)),
                            None => None,
                        }
                    };
                    match step {
                        Some((nf, q)) => {
                            let r2 = ws_skip(s, q);
                            if r2 < s.len() && s[r2] == ',' {
                                let m = ws_skip(s, r2 + 1);
                                if m > i {
                                    req_members_x(s, m, nf)
                                } else {
                                    None
                                }
                            } else if r2 < s.len() && s[r2] == '}' {
                                Some((nf, r2 + 1))
                            } else {
                                None
                            }
                        },
                        None => None,
                    }
                } else {
                    None
                }
            } else {
                None
            }
        },
        None => None,
    }
}

/// Decodes the bytes read from a stream as a request.  Succeeds on
/// exactly the texts `spec_parse_request` accepts; everything else is a
/// decode failure.
pub fn decode_request(msg: &str) -> (r: Result<Request, ServerError>)
    ensures
        match spec_parse_request(msg@) {
            Some(idv) => r matches Ok(req) && req@.id == idv,
            None => r == Err::<Request, ServerError>(ServerError::Decode),
        },
{
    let s = str_to_chars(msg);
    let i = ws_skip(&s, 0);
    if !(i < s.len() && s[i] == '{') {
        return Err(ServerError::Decode);
    }
    let j = ws_skip(&s, i + 1);
    if j < s.len() && s[j] == '}' {
        return Err(ServerError::Decode);
    }
    match req_members_x(&s, j, None) {
        Some((nf, e)) => {
            let t = ws_skip(&s, e);
            if t == s.len() {
                match nf {
                    Some(idv) => Ok(Request { id: chars_to_string(idv) }),
                    None => Err(ServerError::Decode),
                }
            } else {
                Err(ServerError::Decode)
            }
        },
        None => Err(ServerError::Decode),
    }
}

/// The status named by its JSON string spelling, if any.
pub open spec fn status_of_chars(t: Seq<char>) -> Option<CommandStatus> {
    if t == status_chars(CommandStatus::Processing) {
        Some(CommandStatus::Processing)
    } else if t == status_chars(CommandStatus::Okay) {
        Some(CommandStatus::Okay)
    } else if t == status_chars(CommandStatus::Error) {
        Some(CommandStatus::Error)
    } else {
        None
    }
}

/// The status named by its JSON string spelling, if any.
fn status_from_chars(t: &Vec<char>) -> (r: Option<CommandStatus>)
    ensures
        r == status_of_chars(t@),
{
    if t.len() == 10 && t[0] == 'P' && t[1] == 'r' && t[2] == 'o' && t[3] == 'c' && t[4] == 'e'
        && t[5] == 's' && t[6] == 's' && t[7] == 'i' && t[8] == 'n' && t[9] == 'g' {
        proof {
            assert(t@ =~= status_chars(CommandStatus::Processing));
        }
        Some(CommandStatus::Processing)
    } else if t.len() == 2 && t[0] == 'O' && t[1] == 'k' {
        proof {
            assert(t@ =~= status_chars(CommandStatus::Okay));
        }
        Some(CommandStatus::Okay)
    } else if t.len() == 5 && t[0] == 'E' && t[1] == 'r' && t[2] == 'r' && t[3] == 'o' && t[4]
        == 'r' {
        proof {
            assert(t@ =~= status_chars(CommandStatus::Error));
        }
        Some(CommandStatus::Error)
    } else {
        None
    }
}

/// Whether a key equals `status`.
fn key_is_status(k: &Vec<char>) -> (b: bool)
    ensures
        b == (k@ == seq!['s', 't', 'a', 't', 'u', 's']),
{
    let b = k.len() == 6 && k[0] == 's' && k[1] == 't' && k[2] == 'a' && k[3] == 't' && k[4] == 'u'
        && k[5] == 's';
    proof {
        if b {
            assert(k@ =~= seq!['s', 't', 'a', 't', 'u', 's']);
        }
    }
    b
}

/// Whether a key equals `message`.
fn key_is_message(k: &Vec<char>) -> (b: bool)
    ensures
        b == (k@ == seq!['m', 'e', 's', 's', 'a', 'g', 'e']),
{
    let b = k.len() == 7 && k[0] == 'm' && k[1] == 'e' && k[2] == 's' && k[3] == 's' && k[4] == 'a'
        && k[5] == 'g' && k[6] == 'e';
    proof {
        if b {
            assert(k@ =~= seq!['m', 'e', 's', 's', 'a', 'g', 'e']);
        }
    }
    b
}

/// The members of a response object from the first key's quote on.  Each
/// of `id`, `status` and `message` must appear once with a string value;
/// other members are validated and ignored.
pub open spec fn spec_resp_members(
    s: Seq<char>,
    i: int,
    fid: Option<Seq<char>>,
    fst: Option<Seq<char>>,
    fmsg: Option<Seq<char>>,
) -> Option<(Option<Seq<char>>, Option<Seq<char>>, Option<Seq<char>>, int)>
    decreases s.len() - i, 1int,
{
    if !(0 <= i < s.len() && s[i] == '"') {
        None
    } else {
        match spec_str_body(s, i + 1) {
            Some((k, j)) => {
                let j2 = skip_ws(s, j);
                if j2 < s.len() && s[j2] == ':' {
                    let p = skip_ws(s, j2 + 1);
                    if i < p <= s.len() {
                        if k == seq!['i', 'd'] {
                            if fid is Some {
                                None
                            } else if p < s.len() && s[p] == '"' {
                                match spec_str_body(s, p + 1) {
                                    Some((v, q)) => spec_resp_tail(s, i, q, Some(v), fst, fmsg),
                                    None => None,
                                }
                            } else {
                                None
                            }
                        } else if k == seq!['s', 't', 'a', 't', 'u', 's'] {
                            if fst is Some {
                                None
                            } else if p < s.len() && s[p] == '"' {
                                match spec_str_body(s, p + 1) {
                                    Some((v, q)) => spec_resp_tail(s, i, q, fid, Some(v), fmsg),
                                    None => None,
                                }
                            } else {
                                None
                            }
                        } else if k == seq!['m', 'e', 's', 's', 'a', 'g', 'e'] {
                            if fmsg is Some {
                                None
                            } else if p < s.len() && s[p] == '"' {
                                match spec_str_body(s, p + 1) {
                                    Some((v, q)) => spec_resp_tail(s, i, q, fid, fst, Some(v)),
                                    None => None,
                                }
                            } else {
                                None
                            }
                        } else {
                            match spec_skip_value(s, p) {
                                Some(q) => spec_resp_tail(s, i, q, fid, fst, fmsg),
                                None => None,
                            }
                        }
                    } else {
                        None
                    }
                } else {
                    None
                }
            },
            None => None,
        }
    }
}

/// After one member's value, ending at `q`: a comma continues the member
/// list, a closing brace ends it.
pub open spec fn spec_resp_tail(
    s: Seq<char>,
    i: int,
    q: int,
    fid: Option<Seq<char>>,
    fst: Option<Seq<char>>,
    fmsg: Option<Seq<char>>,
) -> Option<(Option<Seq<char>>, Option<Seq<char>>, Option<Seq<char>>, int)>
    decreases s.len() - i, 0int,
{
    let r = skip_ws(s, q);
    if r < s.len() && s[r] == ',' {
        let m = skip_ws(s, r + 1);
        if i < m <= s.len() {
            spec_resp_members(s, m, fid, fst, fmsg)
        } else {
            None
        }
    } else if r < s.len() && s[r] == '}' {
        Some((fid, fst, fmsg, r + 1))
    } else {
        None
    }
}

/// What a well-formed response text holds.
pub open spec fn spec_parse_response(s: Seq<char>) -> Option<SpecResponse> {
    let i = skip_ws(s, 0);
    if 0 <= i < s.len() && s[i] == '{' {
        let j = skip_ws(s, i + 1);
        if j < s.len() && s[j] == '}' {
            None
        } else {
            match spec_resp_members(s, j, None, None, None) {
                Some((fid, fst, fmsg, e)) => if skip_ws(s, e) == s.len() {
                    match (fid, fst, fmsg) {
                        (Some(idv), Some(stv), Some(msgv)) => match status_of_chars(stv) {
                            Some(st) => Some(
                                SpecResponse { id: idv, status: st, message: msgv },
                            ),
                            None => None,
                        },
                        _ => None,
                    }
                } else {
                    None
                },
                None => None,
            }
        }
    } else {
        None
    }
}

/// The members of a response object from the first key's quote on.
#[verifier::rlimit(100)]
#[verifier::spinoff_prover]
fn resp_members_x(
    s: &Vec<char>,
    i: usize,
    fid: Option<Vec<char>>,
    fst: Option<Vec<char>>,
    fmsg: Option<Vec<char>>,
) -> (r: Option<(Option<Vec<char>>, Option<Vec<char>>, Option<Vec<char>>, usize)>)
    requires
        i <= s@.len(),
    ensures
        match r {
            Some((gid, gst, gmsg, e)) => spec_resp_members(
                s@,
                i as int,
                opt_view(fid),
                opt_view(fst),
                opt_view(fmsg),
            ) == Some((opt_view(gid), opt_view(gst), opt_view(gmsg), e as int)) && e <= s@.len(),
            None => spec_resp_members(
                s@,
                i as int,
                opt_view(fid),
                opt_view(fst),
                opt_view(fmsg),
            ) is None,
        },
    decreases s@.len() - i, 1int,
{
    if !(i < s.len() && s[i] == '"') {
        return None;
    }
    match str_body_x(s, i + 1) {
        Some((k, j)) => {
            let j2 = ws_skip(s, j);
            if j2 < s.len() && s[j2] == ':' {
                let p = ws_skip(s, j2 + 1);
                if p > i {
                    if key_is_id(&k) {
                        if fid.is_some() {
                            None
                        } else if p < s.len() && s[p] == '"' {
                            match str_body_x(s, p + 1) {
                                Some((v, q)) => resp_tail_x(s, i, q, Some(v), fst, fmsg),
                                None => None,
                            }
                        } else {
                            None
                        }
                    } else if key_is_status(&k) {
                        if fst.is_some() {
                            None
                        } else if p < s.len() && s[p] == '"' {
                            match str_body_x(s, p + 1) {
                                Some((v, q)) => resp_tail_x(s, i, q, fid, Some(v), fmsg),
                                None => None,
                            }
                        } else {
                            None
                        }
                    } else if key_is_message(&k) {
                        if fmsg.is_some() {
                            None
                        } else if p < s.len() && s[p] == '"' {
                            match str_body_x(s, p + 1) {
                                Some((v, q)) => resp_tail_x(s, i, q, fid, fst, Some(v)),
                                None => None,
                            }
                        } else {
                            None
                        }
                    } else {
                        match skip_value_x(s, p) {
                            Some(q) => resp_tail_x(s, i, q, fid, fst, fmsg),
                            None => None,
                        }
                    }
                } else {
                    None
                }
            } else {
                None
            }
        },
        None => None,
    }
}

/// After one member's value, ending at `q`.
fn resp_tail_x(
    s: &Vec<char>,
    i: usize,
    q: usize,
    fid: Option<Vec<char>>,
    fst: Option<Vec<char>>,
    fmsg: Option<Vec<char>>,
) -> (r: Option<(Option<Vec<char>>, Option<Vec<char>>, Option<Vec<char>>, usize)>)
    requires
        i <= s@.len(),
        q <= s@.len(),
    ensures
        match r {
            Some((gid, gst, gmsg, e)) => spec_resp_tail(
                s@,
                i as int,
                q as int,
                opt_view(fid),
                opt_view(fst),
                opt_view(fmsg),
            ) == Some((opt_view(gid), opt_view(gst), opt_view(gmsg), e as int)) && e <= s@.len(),
            None => spec_resp_tail(
                s@,
                i as int,
                q as int,
                opt_view(fid),
                opt_view(fst),
                opt_view(fmsg),
            ) is None,
        },
    decreases s@.len() - i, 0int,
{
    let r2 = ws_skip(s, q);
    if r2 < s.len() && s[r2] == ',' {
        let m = ws_skip(s, r2 + 1);
        if m > i {
            resp_members_x(s, m, fid, fst, fmsg)
        } else {
            None
        }
    } else if r2 < s.len() && s[r2] == '}' {
        Some((fid, fst, fmsg, r2 + 1))
    } else {
        None
    }
}

/// Decodes one frame's payload (the zero sentinel already stripped) as a
/// response.  Succeeds on exactly the texts `spec_parse_response`
/// accepts.
pub fn decode_response(msg: &str) -> (r: Option<Response>)
    ensures
        match spec_parse_response(msg@) {
            Some(v) => r matches Some(resp) && resp@ == v,
            None => r is None,
        },
{
    let s = str_to_chars(msg);
    let i = ws_skip(&s, 0);
    if !(i < s.len() && s[i] == '{') {
        return None;
    }
    let j = ws_skip(&s, i + 1);
    if j < s.len() && s[j] == '}' {
        return None;
    }
    match resp_members_x(&s, j, None, None, None) {
        Some((gid, gst, gmsg, e)) => {
            let t = ws_skip(&s, e);
            if t != s.len() {
                return None;
            }
            match (gid, gst, gmsg) {
                (Some(idv), Some(stv), Some(msgv)) => {
                    match status_from_chars(&stv) {
                        Some(st) => Some(
                            Response {
                                id: chars_to_string(idv),
                                status: st,
                                message: chars_to_string(msgv),
                            },
                        ),
                        None => None,
                    }
                },
                _ => None,
            }
        },
        None => None,
    }
}

/// The encoded payload of a frame never contains the zero sentinel, so a
/// receiver may split the received stream on zero bytes to recover
/// frames.  (UTF-8 puts a zero byte in the encoding of a character only
/// for the character zero itself, which the payload is free of.)
pub proof fn lemma_encode_zero_free(r: SpecResponse)
    ensures
        zero_free(spec_encode_response(r)),
{
    lemma_esc_chars_zero_free(r.id);
    lemma_esc_chars_zero_free(r.message);
    assert(zero_free(id_prefix()));
    assert(zero_free(status_mid()));
    assert(zero_free(message_mid()));
    assert(zero_free(obj_close()));
    assert(zero_free(status_chars(r.status)));
}

/// A character that is written on the wire as itself.
pub open spec fn plain_char(c: char) -> bool {
    c != '"' && c != '\\' && c as u32 >= 32
}

/// A string of plain characters escapes to itself.
proof fn lemma_esc_plain(t: Seq<char>)
    requires
        forall|k: int| 0 <= k < t.len() ==> plain_char(#[trigger] t[k]),
    ensures
        esc_chars(t) == t,
    decreases t.len(),
{
    if t.len() == 0 {
        assert(esc_chars(t) =~= t);
    } else {
        assert(plain_char(t[0]));
        lemma_esc_plain(t.drop_first());
        assert(esc_char(t[0]) =~= seq![t[0]]);
        assert(esc_chars(t) =~= seq![t[0]] + t.drop_first());
        assert(seq![t[0]] + t.drop_first() =~= t);
    }
}

/// Reading a hexadecimal digit back yields the value it was written from.
proof fn lemma_hex_digit_val(n: int)
    requires
        0 <= n < 16,
    ensures
        hex_val(hex_digit(n)) == Some(n),
{
    if n < 10 {
        assert(hex_digit(n) as int == 48 + n);
    } else {
        assert(hex_digit(n) as int == 55 + n);
    }
}

/// Parsing an escaped string up to a closing quote recovers the original
/// string and stops just past the quote.
#[verifier::rlimit(50)]
proof fn lemma_parse_escaped(s: Seq<char>, i: int, t: Seq<char>)
    requires
        0 <= i,
        i + esc_chars(t).len() + 1 <= s.len(),
        s.subrange(i, i + esc_chars(t).len()) == esc_chars(t),
        s[i + esc_chars(t).len()] == '"',
    ensures
        spec_str_body(s, i) == Some((t, i + esc_chars(t).len() + 1)),
    decreases t.len(),
{
    let e = esc_chars(t);
    assert forall|k: int| 0 <= k < e.len() implies s[i + k] == #[trigger] e[k] by {
        assert(s.subrange(i, i + e.len())[k] == e[k]);
    }
    if t.len() == 0 {
        assert(e.len() == 0);
        assert(s[i] == '"');
    } else {
        let c = t[0];
        let ec = esc_char(c);
        let t1 = t.drop_first();
        let e1 = esc_chars(t1);
        assert(e == ec + e1);
        let i1 = i + ec.len();
        assert(s.subrange(i1, i1 + e1.len()) =~= e1) by {
            assert forall|k: int| 0 <= k < e1.len() implies s[i1 + k] == e1[k] by {
                assert(s[i1 + k] == e[ec.len() + k]);
            }
        }
        assert(s[i1 + e1.len()] == '"');
        lemma_parse_escaped(s, i1, t1);
        if c == '"' || c == '\\' {
            assert(ec == seq!['\\', c]);
            assert(e[0] == '\\' && e[1] == c);
            assert(s[i] == '\\');
            assert(s[i + 1] == c);
            assert(spec_escape(s, i + 1) == Some((c, 1int)));
            assert(spec_str_body(s, i) == Some((seq![c] + t1, i1 + e1.len() + 1)));
        } else if (c as u32) < 32 {
            let cu = c as u32;
            let hi = (cu / 16) as int;
            let lo = (cu % 16) as int;
            assert(ec == seq!['\\', 'u', '0', '0', hex_digit(hi), hex_digit(lo)]);
            assert(e[0] == '\\' && e[1] == 'u' && e[2] == '0' && e[3] == '0');
            assert(e[4] == hex_digit(hi) && e[5] == hex_digit(lo));
            assert(s[i] == '\\' && s[i + 1] == 'u' && s[i + 2] == '0' && s[i + 3] == '0');
            assert(s[i + 4] == hex_digit(hi) && s[i + 5] == hex_digit(lo));
            lemma_hex_digit_val(hi);
            lemma_hex_digit_val(lo);
            assert(hex_val('0') == Some(0int));
            assert(spec_hex4(s, i + 2) == Some(hi * 16 + lo));
            assert(hi * 16 + lo == cu as int);
            vstd::utf8::char_u32_cast(c, cu);
            assert((cu as int) as char == c);
            assert(spec_escape(s, i + 1) == Some((c, 5int)));
            assert(spec_str_body(s, i) == Some((seq![c] + t1, i1 + e1.len() + 1)));
        } else {
            assert(ec == seq![c]);
            assert(e[0] == c);
            assert(s[i] == c);
            assert(spec_str_body(s, i) == Some((seq![c] + t1, i1 + e1.len() + 1)));
        }
        assert(seq![c] + t1 =~= t);
    }
}

/// The spelling of every status is made of plain characters.
proof fn lemma_status_plain(stc: CommandStatus)
    ensures
        esc_chars(status_chars(stc)) == status_chars(stc),
{
    let t = status_chars(stc);
    match stc {
        CommandStatus::Processing => {
            assert forall|k: int| 0 <= k < t.len() implies plain_char(#[trigger] t[k]) by {}
        },
        CommandStatus::Okay => {
            assert forall|k: int| 0 <= k < t.len() implies plain_char(#[trigger] t[k]) by {}
        },
        CommandStatus::Error => {
            assert forall|k: int| 0 <= k < t.len() implies plain_char(#[trigger] t[k]) by {}
        },
    }
    lemma_esc_plain(t);
}

/// Reading a status spelling back yields the status it was written from.
proof fn lemma_status_value(stc: CommandStatus)
    ensures
        status_of_chars(status_chars(stc)) == Some(stc),
{
    match stc {
        CommandStatus::Processing => {
        },
        CommandStatus::Okay => {
            assert(status_chars(CommandStatus::Okay) != status_chars(CommandStatus::Processing));
        },
        CommandStatus::Error => {
            assert(status_chars(CommandStatus::Error) != status_chars(CommandStatus::Processing));
            assert(status_chars(CommandStatus::Error) != status_chars(CommandStatus::Okay));
        },
    }
}

/// Where every character of an encoded response stands: the five
/// constant runs and the three variable runs, at their offsets.
#[verifier::rlimit(100)]
proof fn lemma_enc_index(v: SpecResponse)
    ensures
        spec_encode_response(v).len() == 34 + esc_chars(v.id).len() + status_chars(v.status).len()
            + esc_chars(v.message).len(),
        forall|k: int| 0 <= k < 7 ==> spec_encode_response(v)[k] == #[trigger] id_prefix()[k],
        forall|k: int|
            0 <= k < esc_chars(v.id).len() ==> spec_encode_response(v)[7 + k] == #[trigger] esc_chars(
                v.id,
            )[k],
        forall|k: int|
            0 <= k < 12 ==> spec_encode_response(v)[7 + esc_chars(v.id).len() + k]
                == #[trigger] status_mid()[k],
        forall|k: int|
            0 <= k < status_chars(v.status).len() ==> spec_encode_response(v)[19 + esc_chars(
                v.id,
            ).len() + k] == #[trigger] status_chars(v.status)[k],
        forall|k: int|
            0 <= k < 13 ==> spec_encode_response(v)[19 + esc_chars(v.id).len() + status_chars(
                v.status,
            ).len() + k] == #[trigger] message_mid()[k],
        forall|k: int|
            0 <= k < esc_chars(v.message).len() ==> spec_encode_response(v)[32 + esc_chars(
                v.id,
            ).len() + status_chars(v.status).len() + k] == #[trigger] esc_chars(v.message)[k],
        forall|k: int|
            0 <= k < 2 ==> spec_encode_response(v)[32 + esc_chars(v.id).len() + status_chars(
                v.status,
            ).len() + esc_chars(v.message).len() + k] == #[trigger] obj_close()[k],
{
    let p = id_prefix();
    let ei = esc_chars(v.id);
    let m1 = status_mid();
    let st = status_chars(v.status);
    let m2 = message_mid();
    let em = esc_chars(v.message);
    let cl = obj_close();
    let l1 = ei.len() as int;
    let sl = st.len() as int;
    let l2 = em.len() as int;
    let x1 = p + ei;
    let x2 = x1 + m1;
    let x3 = x2 + st;
    let x4 = x3 + m2;
    let x5 = x4 + em;
    let s = spec_encode_response(v);
    assert(s == x5 + cl);
    assert forall|k: int| 0 <= k < 7 implies s[k] == #[trigger] p[k] by {
        assert(s[k] == x5[k]);
        assert(x5[k] == x4[k]);
        assert(x4[k] == x3[k]);
        assert(x3[k] == x2[k]);
        assert(x2[k] == x1[k]);
        assert(x1[k] == p[k]);
    }
    assert forall|k: int| 0 <= k < l1 implies s[7 + k] == #[trigger] ei[k] by {
        assert(s[7 + k] == x5[7 + k]);
        assert(x5[7 + k] == x4[7 + k]);
        assert(x4[7 + k] == x3[7 + k]);
        assert(x3[7 + k] == x2[7 + k]);
        assert(x2[7 + k] == x1[7 + k]);
        assert(x1[7 + k] == ei[k]);
    }
    assert forall|k: int| 0 <= k < 12 implies s[7 + l1 + k] == #[trigger] m1[k] by {
        assert(s[7 + l1 + k] == x5[7 + l1 + k]);
        assert(x5[7 + l1 + k] == x4[7 + l1 + k]);
        assert(x4[7 + l1 + k] == x3[7 + l1 + k]);
        assert(x3[7 + l1 + k] == x2[7 + l1 + k]);
        assert(x2[7 + l1 + k] == m1[k]);
    }
    assert forall|k: int| 0 <= k < sl implies s[19 + l1 + k] == #[trigger] st[k] by {
        assert(s[19 + l1 + k] == x5[19 + l1 + k]);
        assert(x5[19 + l1 + k] == x4[19 + l1 + k]);
        assert(x4[19 + l1 + k] == x3[19 + l1 + k]);
        assert(x3[19 + l1 + k] == st[k]);
    }
    assert forall|k: int| 0 <= k < 13 implies s[19 + l1 + sl + k] == #[trigger] m2[k] by {
        assert(s[19 + l1 + sl + k] == x5[19 + l1 + sl + k]);
        assert(x5[19 + l1 + sl + k] == x4[19 + l1 + sl + k]);
        assert(x4[19 + l1 + sl + k] == m2[k]);
    }
    assert forall|k: int| 0 <= k < l2 implies s[32 + l1 + sl + k] == #[trigger] em[k] by {
        assert(s[32 + l1 + sl + k] == x5[32 + l1 + sl + k]);
        assert(x5[32 + l1 + sl + k] == em[k]);
    }
    assert forall|k: int| 0 <= k < 2 implies s[32 + l1 + sl + l2 + k] == #[trigger] cl[k] by {
        assert(s[32 + l1 + sl + l2 + k] == cl[k]);
    }
}

/// Parsing the key and the value of the id member.
#[verifier::rlimit(100)]
proof fn lemma_rt_id_strings(v: SpecResponse)
    ensures
        spec_str_body(spec_encode_response(v), 2) == Some((seq!['i', 'd'], 5int)),
        spec_str_body(spec_encode_response(v), 7) == Some(
            (v.id, 8 + esc_chars(v.id).len() as int),
        ),
        spec_encode_response(v)[0] == '{',
        spec_encode_response(v)[1] == '"',
        spec_encode_response(v)[5] == ':',
        spec_encode_response(v)[6] == '"',
        spec_encode_response(v)[8 + esc_chars(v.id).len() as int] == ',',
        spec_encode_response(v)[9 + esc_chars(v.id).len() as int] == '"',
{
    lemma_enc_index(v);
    let ei = esc_chars(v.id);
    let l1 = ei.len() as int;
    let s = spec_encode_response(v);
    assert(id_prefix()[0] == '{' && id_prefix()[1] == '"' && id_prefix()[2] == 'i' && id_prefix()[3]
        == 'd' && id_prefix()[4] == '"' && id_prefix()[5] == ':' && id_prefix()[6] == '"');
    assert(s[1] == '"' && s[2] == 'i' && s[3] == 'd' && s[4] == '"' && s[5] == ':' && s[6] == '"');
    assert(status_mid()[0] == '"' && status_mid()[1] == ',' && status_mid()[2] == '"');
    assert(s[7 + l1] == '"');
    assert(s[8 + l1] == ',');
    assert(s[9 + l1] == '"');
    lemma_esc_plain(seq!['i', 'd']);
    assert(s.subrange(2, 4) =~= esc_chars(seq!['i', 'd']));
    lemma_parse_escaped(s, 2, seq!['i', 'd']);
    assert(s.subrange(7, 7 + l1) =~= ei);
    lemma_parse_escaped(s, 7, v.id);
}

/// Parsing the first member: from its key to the end of its value.
#[verifier::rlimit(100)]
#[verifier::spinoff_prover]
proof fn lemma_rt_member1a(v: SpecResponse)
    ensures
        spec_resp_members(spec_encode_response(v), 1, None, None, None) == spec_resp_tail(
            spec_encode_response(v),
            1,
            8 + esc_chars(v.id).len() as int,
            Some(v.id),
            None,
            None,
        ),
{
    lemma_rt_id_strings(v);
    let l1 = esc_chars(v.id).len() as int;
    let s = spec_encode_response(v);
    assert(skip_ws(s, 5) == 5);
    assert(skip_ws(s, 6) == 6);
    assert(spec_resp_members(s, 1, None, None, None) == spec_resp_tail(
        s,
        1,
        8 + l1,
        Some(v.id),
        None,
        None,
    ));
}

/// After the first member: the comma leads to the second member's key.
#[verifier::rlimit(100)]
#[verifier::spinoff_prover]
proof fn lemma_rt_member1b(v: SpecResponse)
    ensures
        spec_resp_tail(
            spec_encode_response(v),
            1,
            8 + esc_chars(v.id).len() as int,
            Some(v.id),
            None,
            None,
        ) == spec_resp_members(
            spec_encode_response(v),
            9 + esc_chars(v.id).len() as int,
            Some(v.id),
            None,
            None,
        ),
{
    lemma_rt_id_strings(v);
    let l1 = esc_chars(v.id).len() as int;
    let s = spec_encode_response(v);
    assert(skip_ws(s, 8 + l1) == 8 + l1);
    assert(skip_ws(s, 9 + l1) == 9 + l1);
}

/// Parsing the key and the value of the status member.
#[verifier::rlimit(100)]
proof fn lemma_rt_status_strings(v: SpecResponse)
    ensures
        spec_str_body(spec_encode_response(v), 10 + esc_chars(v.id).len() as int) == Some(
            (seq!['s', 't', 'a', 't', 'u', 's'], 17 + esc_chars(v.id).len() as int),
        ),
        spec_str_body(spec_encode_response(v), 19 + esc_chars(v.id).len() as int) == Some(
            (
                status_chars(v.status),
                20 + esc_chars(v.id).len() as int + status_chars(v.status).len() as int,
            ),
        ),
        spec_encode_response(v)[9 + esc_chars(v.id).len() as int] == '"',
        spec_encode_response(v)[17 + esc_chars(v.id).len() as int] == ':',
        spec_encode_response(v)[18 + esc_chars(v.id).len() as int] == '"',
        spec_encode_response(v)[20 + esc_chars(v.id).len() as int + status_chars(
            v.status,
        ).len() as int] == ',',
        spec_encode_response(v)[21 + esc_chars(v.id).len() as int + status_chars(
            v.status,
        ).len() as int] == '"',
        spec_encode_response(v).len() == 34 + esc_chars(v.id).len() + status_chars(v.status).len()
            + esc_chars(v.message).len(),
{
    lemma_enc_index(v);
    let ei = esc_chars(v.id);
    let st = status_chars(v.status);
    let l1 = ei.len() as int;
    let sl = st.len() as int;
    let s = spec_encode_response(v);
    assert(status_mid()[2] == '"' && status_mid()[3] == 's' && status_mid()[4] == 't'
        && status_mid()[5] == 'a' && status_mid()[6] == 't' && status_mid()[7] == 'u'
        && status_mid()[8] == 's' && status_mid()[9] == '"' && status_mid()[10] == ':'
        && status_mid()[11] == '"');
    assert(message_mid()[0] == '"' && message_mid()[1] == ',' && message_mid()[2] == '"');
    assert(s[9 + l1] == '"');
    assert(s[17 + l1] == ':');
    assert(s[20 + l1 + sl] == ',');
    assert(s[21 + l1 + sl] == '"');
    assert(s[10 + l1] == 's');
    assert(s[11 + l1] == 't');
    assert(s[12 + l1] == 'a');
    assert(s[13 + l1] == 't');
    assert(s[14 + l1] == 'u');
    assert(s[15 + l1] == 's');
    assert(s[16 + l1] == '"');
    assert(s[18 + l1] == '"');
    assert(s[19 + l1 + sl] == '"');
    lemma_esc_plain(seq!['s', 't', 'a', 't', 'u', 's']);
    assert(s.subrange(10 + l1, 16 + l1) =~= esc_chars(seq!['s', 't', 'a', 't', 'u', 's']));
    lemma_parse_escaped(s, 10 + l1, seq!['s', 't', 'a', 't', 'u', 's']);
    lemma_status_plain(v.status);
    assert(s.subrange(19 + l1, 19 + l1 + sl) =~= esc_chars(st));
    lemma_parse_escaped(s, 19 + l1, st);
}

/// Parsing the second member: from its key to the end of its value.
#[verifier::rlimit(100)]
#[verifier::spinoff_prover]
proof fn lemma_rt_member2a(v: SpecResponse)
    ensures
        spec_resp_members(
            spec_encode_response(v),
            9 + esc_chars(v.id).len() as int,
            Some(v.id),
            None,
            None,
        ) == spec_resp_tail(
            spec_encode_response(v),
            9 + esc_chars(v.id).len() as int,
            20 + esc_chars(v.id).len() as int + status_chars(v.status).len() as int,
            Some(v.id),
            Some(status_chars(v.status)),
            None,
        ),
{
    lemma_rt_status_strings(v);
    let ei = esc_chars(v.id);
    let st = status_chars(v.status);
    let l1 = ei.len() as int;
    let sl = st.len() as int;
    let s = spec_encode_response(v);
    assert(skip_ws(s, 17 + l1) == 17 + l1);
    assert(skip_ws(s, 18 + l1) == 18 + l1);
    assert(seq!['s', 't', 'a', 't', 'u', 's'] != seq!['i', 'd']);
    assert(spec_resp_members(s, 9 + l1, Some(v.id), None, None) == spec_resp_tail(
        s,
        9 + l1,
        20 + l1 + sl,
        Some(v.id),
        Some(st),
        None,
    ));
}

/// After the second member: the comma leads to the third member's key.
#[verifier::rlimit(100)]
#[verifier::spinoff_prover]
proof fn lemma_rt_member2b(v: SpecResponse)
    ensures
        spec_resp_tail(
            spec_encode_response(v),
            9 + esc_chars(v.id).len() as int,
            20 + esc_chars(v.id).len() as int + status_chars(v.status).len() as int,
            Some(v.id),
            Some(status_chars(v.status)),
            None,
        ) == spec_resp_members(
            spec_encode_response(v),
            21 + esc_chars(v.id).len() as int + status_chars(v.status).len() as int,
            Some(v.id),
            Some(status_chars(v.status)),
            None,
        ),
{
    lemma_rt_status_strings(v);
    let l1 = esc_chars(v.id).len() as int;
    let sl = status_chars(v.status).len() as int;
    let s = spec_encode_response(v);
    assert(skip_ws(s, 20 + l1 + sl) == 20 + l1 + sl);
    assert(skip_ws(s, 21 + l1 + sl) == 21 + l1 + sl);
}

/// Parsing the key and the value of the message member.
#[verifier::rlimit(100)]
proof fn lemma_rt_message_strings(v: SpecResponse)
    ensures
        spec_str_body(
            spec_encode_response(v),
            22 + esc_chars(v.id).len() as int + status_chars(v.status).len() as int,
        ) == Some(
            (
                seq!['m', 'e', 's', 's', 'a', 'g', 'e'],
                30 + esc_chars(v.id).len() as int + status_chars(v.status).len() as int,
            ),
        ),
        spec_str_body(
            spec_encode_response(v),
            32 + esc_chars(v.id).len() as int + status_chars(v.status).len() as int,
        ) == Some(
            (
                v.message,
                33 + esc_chars(v.id).len() as int + status_chars(v.status).len() as int
                    + esc_chars(v.message).len() as int,
            ),
        ),
{
    lemma_enc_index(v);
    let ei = esc_chars(v.id);
    let st = status_chars(v.status);
    let em = esc_chars(v.message);
    let l1 = ei.len() as int;
    let sl = st.len() as int;
    let l2 = em.len() as int;
    let s = spec_encode_response(v);
    assert(message_mid()[3] == 'm' && message_mid()[4] == 'e' && message_mid()[5] == 's'
        && message_mid()[6] == 's' && message_mid()[7] == 'a' && message_mid()[8] == 'g'
        && message_mid()[9] == 'e' && message_mid()[10] == '"' && message_mid()[12] == '"');
    assert(obj_close()[0] == '"');
    assert(s[22 + l1 + sl] == 'm');
    assert(s[23 + l1 + sl] == 'e');
    assert(s[24 + l1 + sl] == 's');
    assert(s[25 + l1 + sl] == 's');
    assert(s[26 + l1 + sl] == 'a');
    assert(s[27 + l1 + sl] == 'g');
    assert(s[28 + l1 + sl] == 'e');
    assert(s[29 + l1 + sl] == '"');
    assert(s[31 + l1 + sl] == '"');
    assert(s[32 + l1 + sl + l2] == '"');
    lemma_esc_plain(seq!['m', 'e', 's', 's', 'a', 'g', 'e']);
    assert(s.subrange(22 + l1 + sl, 29 + l1 + sl) =~= esc_chars(
        seq!['m', 'e', 's', 's', 'a', 'g', 'e'],
    ));
    lemma_parse_escaped(s, 22 + l1 + sl, seq!['m', 'e', 's', 's', 'a', 'g', 'e']);
    assert(s.subrange(32 + l1 + sl, 32 + l1 + sl + l2) =~= em);
    lemma_parse_escaped(s, 32 + l1 + sl, v.message);
}

/// Parsing the third member: from its key to the end of its value.
#[verifier::rlimit(100)]
#[verifier::spinoff_prover]
proof fn lemma_rt_member3a(v: SpecResponse)
    ensures
        spec_resp_members(
            spec_encode_response(v),
            21 + esc_chars(v.id).len() as int + status_chars(v.status).len() as int,
            Some(v.id),
            Some(status_chars(v.status)),
            None,
        ) == spec_resp_tail(
            spec_encode_response(v),
            21 + esc_chars(v.id).len() as int + status_chars(v.status).len() as int,
            33 + esc_chars(v.id).len() as int + status_chars(v.status).len() as int + esc_chars(
                v.message,
            ).len() as int,
            Some(v.id),
            Some(status_chars(v.status)),
            Some(v.message),
        ),
{
    lemma_enc_index(v);
    lemma_rt_message_strings(v);
    let ei = esc_chars(v.id);
    let st = status_chars(v.status);
    let em = esc_chars(v.message);
    let l1 = ei.len() as int;
    let sl = st.len() as int;
    let l2 = em.len() as int;
    let s = spec_encode_response(v);
    assert(message_mid()[2] == '"' && message_mid()[11] == ':' && message_mid()[12] == '"');
    assert(s[21 + l1 + sl] == '"');
    assert(s[30 + l1 + sl] == ':');
    assert(s[31 + l1 + sl] == '"');
    assert(skip_ws(s, 30 + l1 + sl) == 30 + l1 + sl);
    assert(skip_ws(s, 31 + l1 + sl) == 31 + l1 + sl);
    assert(seq!['m', 'e', 's', 's', 'a', 'g', 'e'] != seq!['i', 'd']);
    assert(seq!['m', 'e', 's', 's', 'a', 'g', 'e'] != seq!['s', 't', 'a', 't', 'u', 's']);
    assert(spec_resp_members(s, 21 + l1 + sl, Some(v.id), Some(st), None) == spec_resp_tail(
        s,
        21 + l1 + sl,
        33 + l1 + sl + l2,
        Some(v.id),
        Some(st),
        Some(v.message),
    ));
}

/// After the third member: the closing brace ends the object at the end
/// of the text.
#[verifier::rlimit(100)]
#[verifier::spinoff_prover]
proof fn lemma_rt_member3b(v: SpecResponse)
    ensures
        spec_resp_tail(
            spec_encode_response(v),
            21 + esc_chars(v.id).len() as int + status_chars(v.status).len() as int,
            33 + esc_chars(v.id).len() as int + status_chars(v.status).len() as int + esc_chars(
                v.message,
            ).len() as int,
            Some(v.id),
            Some(status_chars(v.status)),
            Some(v.message),
        ) == Some(
            (
                Some(v.id),
                Some(status_chars(v.status)),
                Some(v.message),
                spec_encode_response(v).len() as int,
            ),
        ),
{
    lemma_enc_index(v);
    let l1 = esc_chars(v.id).len() as int;
    let sl = status_chars(v.status).len() as int;
    let l2 = esc_chars(v.message).len() as int;
    let s = spec_encode_response(v);
    assert(s.len() == 34 + l1 + sl + l2);
    assert(obj_close()[1] == '}');
    assert(s[33 + l1 + sl + l2] == '}');
    assert(skip_ws(s, 33 + l1 + sl + l2) == 33 + l1 + sl + l2);
}

/// The round-trip law: decoding an encoded response yields a value equal
/// in all fields to the original, for every response.
#[verifier::rlimit(100)]
pub proof fn lemma_response_round_trip(v: SpecResponse)
    ensures
        spec_parse_response(spec_encode_response(v)) == Some(v),
{
    lemma_enc_index(v);
    let st = status_chars(v.status);
    let s = spec_encode_response(v);
    assert(id_prefix()[0] == '{' && id_prefix()[1] == '"');
    assert(s[0] == '{');
    assert(s[1] == '"');
    assert(skip_ws(s, 0) == 0);
    assert(skip_ws(s, 1) == 1);
    lemma_rt_member1a(v);
    lemma_rt_member1b(v);
    lemma_rt_member2a(v);
    lemma_rt_member2b(v);
    lemma_rt_member3a(v);
    lemma_rt_member3b(v);
    assert(spec_resp_members(s, 1, None, None, None) == Some(
        (Some(v.id), Some(st), Some(v.message), s.len() as int),
    ));
    assert(skip_ws(s, s.len() as int) == s.len());
    lemma_status_value(v.status);
    assert(v == (SpecResponse { id: v.id, status: v.status, message: v.message }));
}

} // verus!
