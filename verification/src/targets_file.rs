//! The multi-line target-file format: request lines (`METHOD URL` or
//! `METHOD path HTTP/1.1`), `Name: Value` header lines, bodies
//! introduced by a `Body:` header or by the blank line of the HTTP
//! form, requests separated by blank lines, `#` comments.
//!
//! Parsing is a fold of one exactly-specified step over the lines.
//! Reading a body file from disk is not the parser's business: a body
//! given as a path comes out as a reference the caller resolves.

use vstd::prelude::*;
use crate::models::Header;
use crate::parse::{find_char, spec_trim, subrange_chars, trim_chars, find_char_at};
use crate::wrappers::{chars_to_text, parse_url_text, parsed_url, text_to_chars};

verus! {

/// Where a parsed target's body comes from.
#[derive(Debug)]
pub enum RawBody {
    /// No body
    Absent,
    /// The body is the named file's content, read by the caller
    FromFile(String),
    /// The body is this text, accumulated from the file itself
    Inline(String),
}

/// The mathematical value of a body source.
pub enum RawBodyView {
    /// No body
    Absent,
    /// A file reference
    FromFile(Seq<char>),
    /// Inline text
    Inline(Seq<char>),
}

impl View for RawBody {
    type V = RawBodyView;

    open spec fn view(&self) -> RawBodyView {
        match self {
            RawBody::Absent => RawBodyView::Absent,
            RawBody::FromFile(p) => RawBodyView::FromFile(p@),
            RawBody::Inline(t) => RawBodyView::Inline(t@),
        }
    }
}

/// A parsed target whose body may still be a file reference.
#[derive(Debug)]
pub struct RawTarget {
    /// The HTTP method token
    pub method: String,
    /// The URL, in serialized form
    pub url: String,
    /// The headers, in file order
    pub headers: Vec<Header>,
    /// The body source
    pub body: RawBody,
}

/// The mathematical value of a parsed target.
#[verifier::ext_equal]
pub struct RawTargetView {
    /// The method token
    pub method: Seq<char>,
    /// The serialized URL
    pub url: Seq<char>,
    /// The header pairs
    pub headers: Seq<(Seq<char>, Seq<char>)>,
    /// The body source
    pub body: RawBodyView,
}

impl View for RawTarget {
    type V = RawTargetView;

    open spec fn view(&self) -> RawTargetView {
        RawTargetView {
            method: self.method@,
            url: self.url@,
            headers: crate::models::headers_view(self.headers@),
            body: self.body@,
        }
    }
}

/// Why a target file was rejected.
#[derive(PartialEq, Eq, Structural, Clone, Copy, Debug)]
pub enum FileTargetError {
    /// A request line's URL, or the URL built from Host and path,
    /// does not parse
    BadUrl,
    /// An HTTP-form request has no Host header to build its URL from
    MissingHost,
    /// A line is neither request line, header, body nor separator
    UnexpectedLine,
}

/// The ASCII-lowercased form of a character.
pub open spec fn spec_lower(c: char) -> char {
    if 'A' <= c && c <= 'Z' {
        ((c as int) + 32) as char
    } else {
        c
    }
}

/// Case-insensitive ASCII equality of two texts.
pub open spec fn spec_eq_icase(a: Seq<char>, b: Seq<char>) -> bool {
    a.map_values(|c: char| spec_lower(c)) == b.map_values(|c: char| spec_lower(c))
}

/// Compare two texts ASCII-case-insensitively.
pub fn eq_icase(a: &Vec<char>, b: &str) -> (r: bool)
    ensures
        r == spec_eq_icase(a@, b@),
{
    let bc = text_to_chars(b);
    if a.len() != bc.len() {
        proof {
            assert(a@.map_values(|c: char| spec_lower(c)).len() == a@.len());
            assert(b@.map_values(|c: char| spec_lower(c)).len() == b@.len());
        }
        return false;
    }
    let mut i: usize = 0;
    while i < a.len()
        invariant
            i <= a@.len(),
            a@.len() == bc@.len(),
            bc@ == b@,
            forall|k: int| 0 <= k < i ==> spec_lower(a@[k]) == spec_lower(b@[k]),
        decreases a@.len() - i,
    {
        let ca = a[i];
        let cb = bc[i];
        let la = if ca >= 'A' && ca <= 'Z' {
            (ca as u8 + 32) as char
        } else {
            ca
        };
        let lb = if cb >= 'A' && cb <= 'Z' {
            (cb as u8 + 32) as char
        } else {
            cb
        };
        if la != lb {
            proof {
                assert(a@.map_values(|c: char| spec_lower(c))[i as int] == spec_lower(
                    a@[i as int],
                ));
                assert(b@.map_values(|c: char| spec_lower(c))[i as int] == spec_lower(
                    b@[i as int],
                ));
            }
            return false;
        }
        i = i + 1;
    }
    proof {
        assert(a@.map_values(|c: char| spec_lower(c)) =~= b@.map_values(
            |c: char| spec_lower(c),
        ));
    }
    true
}

/// The first `Host` header's value, if any.
pub open spec fn spec_host_value(hs: Seq<(Seq<char>, Seq<char>)>) -> Option<Seq<char>>
    decreases hs.len(),
{
    if hs.len() == 0 {
        None
    } else if spec_eq_icase(hs.first().0, "host"@) {
        Some(hs.first().1)
    } else {
        spec_host_value(hs.drop_first())
    }
}

/// Find the first `Host` header's value.
pub fn host_value(hs: &Vec<Header>) -> (r: Option<String>)
    ensures
        match r {
            Some(v) => spec_host_value(crate::models::headers_view(hs@)) == Some(v@),
            None => spec_host_value(crate::models::headers_view(hs@)) is None,
        },
{
    let ghost views = crate::models::headers_view(hs@);
    let mut i: usize = 0;
    proof {
        assert(views.skip(0) =~= views);
    }
    while i < hs.len()
        invariant
            i <= hs@.len(),
            views == crate::models::headers_view(hs@),
            views.len() == hs@.len(),
            spec_host_value(views.skip(i as int)) == spec_host_value(views),
            forall|k: int| 0 <= k < i ==> !spec_eq_icase((#[trigger] views[k]).0, "host"@),
        decreases hs@.len() - i,
    {
        proof {
            assert(views.skip(i as int).first() == views[i as int]);
            assert(views.skip(i as int).drop_first() =~= views.skip(i + 1));
            assert(views[i as int] == hs@[i as int]@);
        }
        let name_chars = text_to_chars(hs[i].name.as_str());
        if eq_icase(&name_chars, "host") {
            return Some(hs[i].value.clone());
        }
        i = i + 1;
    }
    proof {
        assert(views.skip(views.len() as int) =~= Seq::<(Seq<char>, Seq<char>)>::empty());
    }
    None
}

/// The parser's state between lines.
#[verifier::ext_equal]
pub struct FileStateView {
    /// Method of the request being collected
    pub method: Option<Seq<char>>,
    /// URL of the request being collected (simple form)
    pub url: Option<Seq<char>>,
    /// Path of the request being collected (HTTP form)
    pub path: Option<Seq<char>>,
    /// Headers collected so far
    pub headers: Seq<(Seq<char>, Seq<char>)>,
    /// Body source collected so far
    pub body: RawBodyView,
    /// Whether body lines are being collected
    pub reading_body: bool,
    /// Inline body text collected so far
    pub body_content: Seq<char>,
    /// Whether the request is in HTTP form
    pub is_http: bool,
    /// Whether the HTTP form's separating blank line was seen
    pub found_empty: bool,
    /// Finished targets
    pub targets: Seq<RawTargetView>,
}

/// The state every parse starts from.
pub open spec fn spec_initial_state() -> FileStateView {
    FileStateView {
        method: None,
        url: None,
        path: None,
        headers: Seq::empty(),
        body: RawBodyView::Absent,
        reading_body: false,
        body_content: Seq::empty(),
        is_http: false,
        found_empty: false,
        targets: Seq::empty(),
    }
}

/// The URL of the request being collected: the stored URL in simple
/// form; in HTTP form, `http://` plus the first Host header's value
/// plus the path, run through the URL parser.
pub open spec fn spec_current_url(st: FileStateView) -> Result<Seq<char>, FileTargetError> {
    if st.is_http && st.path is Some {
        match spec_host_value(st.headers) {
            None => Err(FileTargetError::MissingHost),
            Some(h) => match parsed_url("http://"@ + h + st.path.unwrap()) {
                None => Err(FileTargetError::BadUrl),
                Some(u) => Ok(u),
            },
        }
    } else {
        Ok(st.url.unwrap())
    }
}

/// Whether the state holds a complete request to finalize.
pub open spec fn spec_can_finalize(st: FileStateView) -> bool {
    st.method is Some && (st.url is Some || (st.is_http && st.path is Some))
}

/// The body a request closes with: inline content collected so far
/// (trimmed) when body lines were being read, else the stored source.
pub open spec fn spec_pending_body(st: FileStateView) -> RawBodyView {
    if st.reading_body && st.body_content.len() > 0 {
        RawBodyView::Inline(spec_trim(st.body_content))
    } else {
        st.body
    }
}

/// Close the request being collected and append it to the targets,
/// clearing the collection fields.
pub open spec fn spec_finalize(st: FileStateView, body: RawBodyView) -> Result<
    FileStateView,
    FileTargetError,
> {
    match spec_current_url(st) {
        Err(e) => Err(e),
        Ok(u) => Ok(
            FileStateView {
                method: None,
                url: None,
                path: None,
                headers: Seq::empty(),
                body: RawBodyView::Absent,
                body_content: Seq::empty(),
                targets: st.targets.push(
                    RawTargetView { method: st.method.unwrap(), url: u, headers: st.headers, body },
                ),
                ..st
            },
        ),
    }
}

/// One parsing step: what one line does to the state.
pub open spec fn spec_step(st: FileStateView, line: Seq<char>) -> Result<
    FileStateView,
    FileTargetError,
> {
    let t = spec_trim(line);
    if t.len() > 0 && t[0] == '#' {
        Ok(st)
    } else if t.len() == 0 {
        if st.is_http && st.method is Some && st.path is Some && !st.found_empty {
            Ok(FileStateView { found_empty: true, reading_body: true, ..st })
        } else if spec_can_finalize(st) {
            match spec_finalize(st, spec_pending_body(st)) {
                Err(e) => Err(e),
                Ok(st2) => Ok(
                    FileStateView { reading_body: false, is_http: false, found_empty: false, ..st2 },
                ),
            }
        } else {
            Ok(st)
        }
    } else if find_char(t, ' ', 0) < t.len() && find_char(
        t.subrange(0, find_char(t, ' ', 0)),
        ':',
        0,
    ) == find_char(t, ' ', 0) {
        let cut = find_char(t, ' ', 0);
        let method = t.subrange(0, cut);
        let rest = t.subrange(cut + 1, t.len() as int);
        let cut2 = find_char(rest, ' ', 0);
        if cut2 < rest.len() && (rest.subrange(cut2 + 1, rest.len() as int) == "HTTP/1.1"@
            || rest.subrange(cut2 + 1, rest.len() as int) == "HTTP/2.0"@) {
            let stepped = if spec_can_finalize(st) {
                spec_finalize(st, spec_pending_body(st))
            } else {
                Ok(st)
            };
            match stepped {
                Err(e) => Err(e),
                Ok(st2) => Ok(
                    FileStateView {
                        method: Some(method),
                        path: Some(rest.subrange(0, cut2)),
                        is_http: true,
                        found_empty: false,
                        ..st2
                    },
                ),
            }
        } else {
            let stepped = if spec_can_finalize(st) {
                spec_finalize(st, spec_pending_body(st))
            } else {
                Ok(st)
            };
            match stepped {
                Err(e) => Err(e),
                Ok(st2) => match parsed_url(rest) {
                    None => Err(FileTargetError::BadUrl),
                    Some(u) => Ok(
                        FileStateView {
                            method: Some(method),
                            url: Some(u),
                            is_http: false,
                            found_empty: false,
                            ..st2
                        },
                    ),
                },
            }
        }
    } else if st.reading_body {
        if st.is_http && st.found_empty {
            Ok(FileStateView { body_content: st.body_content + line + seq!['\n'], ..st })
        } else if st.body_content.len() == 0 && t[0] != '{' && t[0] != '[' {
            Ok(FileStateView { body: RawBodyView::FromFile(t), reading_body: false, ..st })
        } else {
            Ok(FileStateView { body_content: st.body_content + line + seq!['\n'], ..st })
        }
    } else if find_char(t, ':', 0) < t.len() {
        let cut = find_char(t, ':', 0);
        let name = spec_trim(t.subrange(0, cut));
        let value = spec_trim(t.subrange(cut + 1, t.len() as int));
        if spec_eq_icase(name, "body"@) {
            if value.len() > 0 {
                Ok(
                    FileStateView {
                        body: RawBodyView::FromFile(value),
                        reading_body: false,
                        ..st
                    },
                )
            } else {
                Ok(FileStateView { reading_body: true, ..st })
            }
        } else {
            Ok(FileStateView { headers: st.headers.push((name, value)), ..st })
        }
    } else {
        Err(FileTargetError::UnexpectedLine)
    }
}

/// Folding the step over the lines.
pub open spec fn spec_fold_lines(lines: Seq<Seq<char>>) -> Result<
    FileStateView,
    FileTargetError,
>
    decreases lines.len(),
{
    if lines.len() == 0 {
        Ok(spec_initial_state())
    } else {
        match spec_fold_lines(lines.drop_last()) {
            Err(e) => Err(e),
            Ok(st) => spec_step(st, lines.last()),
        }
    }
}

/// Close the last request at the end of the file: an inline body
/// collected so far becomes the body, trimmed.
pub open spec fn spec_finish(st: FileStateView) -> Result<Seq<RawTargetView>, FileTargetError> {
    if spec_can_finalize(st) {
        match spec_finalize(st, spec_pending_body(st)) {
            Err(e) => Err(e),
            Ok(st2) => Ok(st2.targets),
        }
    } else {
        Ok(st.targets)
    }
}

/// What a whole target file denotes.
pub open spec fn spec_file_targets(lines: Seq<Seq<char>>) -> Result<
    Seq<RawTargetView>,
    FileTargetError,
> {
    match spec_fold_lines(lines) {
        Err(e) => Err(e),
        Ok(st) => spec_finish(st),
    }
}

/// The parser's state, as the fold carries it.
struct FileState {
    method: Option<String>,
    url: Option<String>,
    path: Option<String>,
    headers: Vec<Header>,
    body: RawBody,
    reading_body: bool,
    body_content: Vec<char>,
    is_http: bool,
    found_empty: bool,
    targets: Vec<RawTarget>,
}

impl View for FileState {
    type V = FileStateView;

    closed spec fn view(&self) -> FileStateView {
        FileStateView {
            method: match self.method {
                Some(ref m) => Some(m@),
                None => None,
            },
            url: match self.url {
                Some(ref u) => Some(u@),
                None => None,
            },
            path: match self.path {
                Some(ref p) => Some(p@),
                None => None,
            },
            headers: crate::models::headers_view(self.headers@),
            body: self.body@,
            reading_body: self.reading_body,
            body_content: self.body_content@,
            is_http: self.is_http,
            found_empty: self.found_empty,
            targets: self.targets@.map_values(|t: RawTarget| t@),
        }
    }
}

/// Close the request being collected, with the given body.
fn finalize_state(st: FileState, body: RawBody) -> (r: Result<FileState, FileTargetError>)
    requires
        spec_can_finalize(st@),
    ensures
        match r {
            Ok(st2) => spec_finalize(st@, body@) == Ok::<FileStateView, FileTargetError>(st2@),
            Err(e) => spec_finalize(st@, body@) == Err::<FileStateView, FileTargetError>(e),
        },
{
    let ghost pre = st@;
    let FileState {
        method,
        url,
        path,
        headers,
        body: _old_body,
        reading_body,
        body_content: _content,
        is_http,
        found_empty,
        mut targets,
    } = st;
    let built_url: String = if is_http && path.is_some() {
        match host_value(&headers) {
            None => {
                return Err(FileTargetError::MissingHost);
            },
            Some(h) => {
                let base = text_to_chars("http://");
                let hostc = text_to_chars(h.as_str());
                let pathc = text_to_chars(path.as_ref().unwrap().as_str());
                let mut all: Vec<char> = Vec::new();
                let mut k: usize = 0;
                while k < base.len()
                    invariant
                        k <= base@.len(),
                        all@ == base@.take(k as int),
                    decreases base@.len() - k,
                {
                    all.push(base[k]);
                    proof {
                        assert(all@ =~= base@.take(k + 1));
                    }
                    k = k + 1;
                }
                proof {
                    assert(all@ =~= base@);
                }
                let mut k2: usize = 0;
                while k2 < hostc.len()
                    invariant
                        k2 <= hostc@.len(),
                        all@ == base@ + hostc@.take(k2 as int),
                    decreases hostc@.len() - k2,
                {
                    all.push(hostc[k2]);
                    proof {
                        assert(all@ =~= base@ + hostc@.take(k2 + 1));
                    }
                    k2 = k2 + 1;
                }
                proof {
                    assert(all@ =~= base@ + hostc@);
                }
                let mut k3: usize = 0;
                while k3 < pathc.len()
                    invariant
                        k3 <= pathc@.len(),
                        all@ == base@ + hostc@ + pathc@.take(k3 as int),
                    decreases pathc@.len() - k3,
                {
                    all.push(pathc[k3]);
                    proof {
                        assert(all@ =~= base@ + hostc@ + pathc@.take(k3 + 1));
                    }
                    k3 = k3 + 1;
                }
                proof {
                    assert(all@ =~= base@ + hostc@ + pathc@);
                }
                let text = chars_to_text(&all);
                match parse_url_text(text.as_str()) {
                    None => {
                        return Err(FileTargetError::BadUrl);
                    },
                    Some(u) => u,
                }
            },
        }
    } else {
        url.unwrap()
    };
    let t = RawTarget { method: method.unwrap(), url: built_url, headers, body };
    let ghost tv = t@;
    targets.push(t);
    let st2 = FileState {
        method: None,
        url: None,
        path: None,
        headers: Vec::new(),
        body: RawBody::Absent,
        reading_body,
        body_content: Vec::new(),
        is_http,
        found_empty,
        targets,
    };
    proof {
        assert(st2@.headers =~= Seq::<(Seq<char>, Seq<char>)>::empty());
        assert(st2@.body_content =~= Seq::<char>::empty());
        assert(st2@.targets =~= pre.targets.push(tv));
        assert(spec_finalize(pre, body@) == Ok::<FileStateView, FileTargetError>(st2@)) by {
            assert(st2@ =~~= spec_finalize(pre, body@).unwrap());
        }
    }
    Ok(st2)
}

/// Append a raw line and a newline to the collected body text.
fn append_body_line(st: &mut FileState, line: &Vec<char>)
    ensures
        final(st)@ == (FileStateView {
            body_content: old(st)@.body_content + line@ + seq!['\n'],
            ..old(st)@
        }),
{
    let mut k: usize = 0;
    while k < line.len()
        invariant
            k <= line@.len(),
            st@ == (FileStateView {
                body_content: old(st)@.body_content + line@.take(k as int),
                ..old(st)@
            }),
        decreases line@.len() - k,
    {
        st.body_content.push(line[k]);
        proof {
            assert(st@.body_content =~= old(st)@.body_content + line@.take(k + 1));
            assert(st@ =~~= (FileStateView {
                body_content: old(st)@.body_content + line@.take(k + 1),
                ..old(st)@
            }));
        }
        k = k + 1;
    }
    proof {
        assert(old(st)@.body_content + line@.take(line@.len() as int) =~= old(
            st,
        )@.body_content + line@);
    }
    st.body_content.push('\n');
    proof {
        assert(st@.body_content =~= old(st)@.body_content + line@ + seq!['\n']);
        assert(st@ =~~= (FileStateView {
            body_content: old(st)@.body_content + line@ + seq!['\n'],
            ..old(st)@
        }));
    }
}

/// Apply one line to the state.
fn step_state(st: FileState, line: &Vec<char>) -> (r: Result<FileState, FileTargetError>)
    ensures
        match r {
            Ok(st2) => spec_step(st@, line@) == Ok::<FileStateView, FileTargetError>(st2@),
            Err(e) => spec_step(st@, line@) == Err::<FileStateView, FileTargetError>(e),
        },
{
    let ghost pre = st@;
    let t = trim_chars(line);
    if t.len() > 0 && t[0] == '#' {
        return Ok(st);
    }
    if t.len() == 0 {
        if st.is_http && st.method.is_some() && st.path.is_some() && !st.found_empty {
            let mut st2 = st;
            st2.found_empty = true;
            st2.reading_body = true;
            proof {
                assert(st2@ =~~= (FileStateView { found_empty: true, reading_body: true, ..pre }));
            }
            return Ok(st2);
        }
        if st.method.is_some() && (st.url.is_some() || (st.is_http && st.path.is_some())) {
            let FileState {
                method,
                url,
                path,
                headers,
                body,
                reading_body,
                body_content,
                is_http,
                found_empty,
                targets,
            } = st;
            let pending: RawBody = if reading_body && body_content.len() > 0 {
                RawBody::Inline(chars_to_text(&trim_chars(&body_content)))
            } else {
                body
            };
            let st_for_fin = FileState {
                method,
                url,
                path,
                headers,
                body: RawBody::Absent,
                reading_body,
                body_content,
                is_http,
                found_empty,
                targets,
            };
            proof {
                assert(pending@ == spec_pending_body(pre));
                assert(spec_current_url(pre) == spec_current_url(st_for_fin@));
                if spec_current_url(pre) is Ok {
                    assert(spec_finalize(pre, spec_pending_body(pre)).unwrap()
                        =~~= spec_finalize(st_for_fin@, pending@).unwrap());
                }
            }
            match finalize_state(st_for_fin, pending) {
                Err(e) => {
                    return Err(e);
                },
                Ok(mut st2) => {
                    let ghost fin = st2@;
                    st2.reading_body = false;
                    st2.is_http = false;
                    st2.found_empty = false;
                    proof {
                        assert(st2@ =~~= (FileStateView {
                            reading_body: false,
                            is_http: false,
                            found_empty: false,
                            ..fin
                        }));
                    }
                    return Ok(st2);
                },
            }
        }
        return Ok(st);
    }
    let cut = find_char_at(&t, ' ', 0);
    let mut is_request_line = false;
    if cut < t.len() {
        let method_part = subrange_chars(&t, 0, cut);
        let colon_in_method = find_char_at(&method_part, ':', 0);
        if colon_in_method >= method_part.len() {
            is_request_line = true;
        }
        proof {
            assert(method_part@ == t@.subrange(0, cut as int));
        }
    }
    if is_request_line {
        let method_chars = subrange_chars(&t, 0, cut);
        let rest = subrange_chars(&t, cut + 1, t.len());
        let cut2 = find_char_at(&rest, ' ', 0);
        let mut http_form = false;
        if cut2 < rest.len() {
            let ver = subrange_chars(&rest, cut2 + 1, rest.len());
            if eq_lit(&ver, "HTTP/1.1") || eq_lit(&ver, "HTTP/2.0") {
                http_form = true;
            }
        }
        let st_after: FileState = if st.method.is_some() && (st.url.is_some() || (st.is_http
            && st.path.is_some())) {
            let FileState {
                method,
                url,
                path,
                headers,
                body,
                reading_body,
                body_content,
                is_http,
                found_empty,
                targets,
            } = st;
            let pending: RawBody = if reading_body && body_content.len() > 0 {
                RawBody::Inline(chars_to_text(&trim_chars(&body_content)))
            } else {
                body
            };
            let st_for_fin = FileState {
                method,
                url,
                path,
                headers,
                body: RawBody::Absent,
                reading_body,
                body_content,
                is_http,
                found_empty,
                targets,
            };
            proof {
                assert(pending@ == spec_pending_body(pre));
                assert(spec_current_url(pre) == spec_current_url(st_for_fin@));
                if spec_current_url(pre) is Ok {
                    assert(spec_finalize(pre, spec_pending_body(pre)).unwrap()
                        =~~= spec_finalize(st_for_fin@, pending@).unwrap());
                }
            }
            match finalize_state(st_for_fin, pending) {
                Err(e) => {
                    return Err(e);
                },
                Ok(st2) => st2,
            }
        } else {
            st
        };
        if http_form {
            let mut st2 = st_after;
            let ghost mid = st2@;
            let path_chars = subrange_chars(&rest, 0, cut2);
            st2.method = Some(chars_to_text(&method_chars));
            st2.path = Some(chars_to_text(&path_chars));
            st2.is_http = true;
            st2.found_empty = false;
            proof {
                assert(st2@ =~~= (FileStateView {
                    method: Some(t@.subrange(0, cut as int)),
                    path: Some(t@.subrange(cut + 1, t@.len() as int).subrange(0, cut2 as int)),
                    is_http: true,
                    found_empty: false,
                    ..mid
                }));
            }
            return Ok(st2);
        }
        let rest_text = chars_to_text(&rest);
        match parse_url_text(rest_text.as_str()) {
            None => {
                return Err(FileTargetError::BadUrl);
            },
            Some(u) => {
                let mut st2 = st_after;
                let ghost mid = st2@;
                let ghost uv = u@;
                st2.method = Some(chars_to_text(&method_chars));
                st2.url = Some(u);
                st2.is_http = false;
                st2.found_empty = false;
                proof {
                    assert(st2@ =~~= (FileStateView {
                        method: Some(t@.subrange(0, cut as int)),
                        url: Some(uv),
                        is_http: false,
                        found_empty: false,
                        ..mid
                    }));
                }
                return Ok(st2);
            },
        }
    }
    if st.reading_body {
        if st.is_http && st.found_empty {
            let mut st2 = st;
            append_body_line(&mut st2, line);
            return Ok(st2);
        }
        if st.body_content.len() == 0 && t[0] != '{' && t[0] != '[' {
            let mut st2 = st;
            st2.body = RawBody::FromFile(chars_to_text(&t));
            st2.reading_body = false;
            proof {
                assert(st2@ =~~= (FileStateView {
                    body: RawBodyView::FromFile(t@),
                    reading_body: false,
                    ..pre
                }));
            }
            return Ok(st2);
        }
        let mut st2 = st;
        append_body_line(&mut st2, line);
        return Ok(st2);
    }
    let ccut = find_char_at(&t, ':', 0);
    if ccut < t.len() {
        let name = trim_chars(&subrange_chars(&t, 0, ccut));
        let value = trim_chars(&subrange_chars(&t, ccut + 1, t.len()));
        if eq_icase(&name, "body") {
            if value.len() > 0 {
                let mut st2 = st;
                st2.body = RawBody::FromFile(chars_to_text(&value));
                st2.reading_body = false;
                proof {
                    assert(st2@ =~~= (FileStateView {
                        body: RawBodyView::FromFile(spec_trim(t@.subrange(
                            ccut + 1,
                            t@.len() as int,
                        ))),
                        reading_body: false,
                        ..pre
                    }));
                }
                return Ok(st2);
            }
            let mut st2 = st;
            st2.reading_body = true;
            proof {
                assert(st2@ =~~= (FileStateView { reading_body: true, ..pre }));
            }
            return Ok(st2);
        }
        let mut st2 = st;
        let ghost nv = (name@, value@);
        st2.headers.push(Header::new(chars_to_text(&name), chars_to_text(&value)));
        proof {
            assert(st2@.headers =~= pre.headers.push(nv));
            assert(st2@ =~~= (FileStateView { headers: pre.headers.push(nv), ..pre }));
        }
        return Ok(st2);
    }
    Err(FileTargetError::UnexpectedLine)
}

/// Exact equality of a character buffer and a literal.
fn eq_lit(v: &Vec<char>, s: &str) -> (r: bool)
    ensures
        r == (v@ == s@),
{
    let sc = text_to_chars(s);
    if v.len() != sc.len() {
        return false;
    }
    let mut i: usize = 0;
    while i < v.len()
        invariant
            i <= v@.len(),
            v@.len() == sc@.len(),
            sc@ == s@,
            forall|k: int| 0 <= k < i ==> v@[k] == s@[k],
        decreases v@.len() - i,
    {
        if v[i] != sc[i] {
            return false;
        }
        i = i + 1;
    }
    proof {
        assert(v@ =~= s@);
    }
    true
}

/// Parse the multi-line target-file format.  Succeeds exactly when
/// the exact line-by-line grammar does, and the error names the line
/// on which parsing stopped.
pub fn parse_file_targets(lines: &Vec<String>) -> (r: Result<
    Vec<RawTarget>,
    (FileTargetError, usize),
>)
    ensures
        ({
            let lv = lines@.map_values(|l: String| l@);
            match r {
                Ok(ts) => spec_file_targets(lv) == Ok::<Seq<RawTargetView>, FileTargetError>(
                    ts@.map_values(|t: RawTarget| t@),
                ),
                Err((e, idx)) => {
                    &&& spec_file_targets(lv) == Err::<Seq<RawTargetView>, FileTargetError>(e)
                    &&& idx <= lines@.len()
                },
            }
        }),
{
    let ghost lv = lines@.map_values(|l: String| l@);
    let mut st = FileState {
        method: None,
        url: None,
        path: None,
        headers: Vec::new(),
        body: RawBody::Absent,
        reading_body: false,
        body_content: Vec::new(),
        is_http: false,
        found_empty: false,
        targets: Vec::new(),
    };
    proof {
        assert(st@ =~~= spec_initial_state());
        assert(lv.take(0) =~= Seq::<Seq<char>>::empty());
    }
    let mut i: usize = 0;
    while i < lines.len()
        invariant
            i <= lines@.len(),
            lv == lines@.map_values(|l: String| l@),
            lv.len() == lines@.len(),
            spec_fold_lines(lv.take(i as int)) == Ok::<FileStateView, FileTargetError>(st@),
        decreases lines@.len() - i,
    {
        proof {
            assert(lv.take(i + 1).drop_last() =~= lv.take(i as int));
            assert(lv.take(i + 1).last() == lines@[i as int]@);
        }
        let line = text_to_chars(&lines[i]);
        match step_state(st, &line) {
            Err(e) => {
                proof {
                    lemma_fold_error_persists(lv, i + 1);
                }
                return Err((e, i));
            },
            Ok(st2) => {
                st = st2;
            },
        }
        i = i + 1;
    }
    proof {
        assert(lv.take(lv.len() as int) =~= lv);
    }
    let FileState {
        method,
        url,
        path,
        headers,
        body,
        reading_body,
        body_content,
        is_http,
        found_empty,
        targets,
    } = st;
    if method.is_some() && (url.is_some() || (is_http && path.is_some())) {
        let final_body: RawBody = if reading_body && body_content.len() > 0 {
            let trimmed = trim_chars(&body_content);
            RawBody::Inline(chars_to_text(&trimmed))
        } else {
            body
        };
        let st_for_fin = FileState {
            method,
            url,
            path,
            headers,
            body: RawBody::Absent,
            reading_body,
            body_content,
            is_http,
            found_empty,
            targets,
        };
        let ghost pre = spec_fold_lines(lv).unwrap();
        proof {
            assert(final_body@ == spec_pending_body(pre));
            assert(spec_current_url(pre) == spec_current_url(st_for_fin@));
            if spec_current_url(pre) is Ok {
                assert(spec_finalize(pre, final_body@).unwrap() =~~= spec_finalize(
                    st_for_fin@,
                    final_body@,
                ).unwrap());
            }
        }
        match finalize_state(st_for_fin, final_body) {
            Err(e) => Err((e, lines.len())),
            Ok(st2) => {
                let FileState { targets: out, .. } = st2;
                proof {
                    assert(out@.map_values(|t: RawTarget| t@) == spec_finish(pre).unwrap());
                }
                Ok(out)
            },
        }
    } else {
        proof {
            let pre = spec_fold_lines(lv).unwrap();
            assert(spec_finish(pre) == Ok::<Seq<RawTargetView>, FileTargetError>(pre.targets));
        }
        Ok(targets)
    }
}

/// Once the fold fails on a prefix, it fails on the whole file with
/// the same error.
proof fn lemma_fold_error_persists(lv: Seq<Seq<char>>, i: int)
    requires
        0 <= i <= lv.len(),
        spec_fold_lines(lv.take(i)) is Err,
    ensures
        spec_fold_lines(lv) == spec_fold_lines(lv.take(i)),
    decreases lv.len() - i,
{
    if i < lv.len() {
        assert(lv.take(i + 1).drop_last() =~= lv.take(i));
        lemma_fold_error_persists(lv, i + 1);
    } else {
        assert(lv.take(i) =~= lv);
    }
}

} // verus!
