//! The response formatter: turns a received HTTP response into a sequence of
//! styled text segments — the status line, one line per header, and the body,
//! pretty-printed as JSON when the `Content-Type` header says
//! `application/json` (parameters ignored), verbatim otherwise.

use crate::text::dec_rep;
use crate::text::dec_str;
use crate::text::eq_ignore_ascii_case;
use crate::text::str_eq;
use crate::text::str_eq_ignore_ascii_case;
use vstd::prelude::*;
use vstd::string::StrSliceExecFns;
use vstd::string::StringExecFns;

verus! {

/// A received HTTP response, reduced to plain values: the protocol version
/// (e.g. `HTTP/1.1`), the numeric status code, the reason phrase (possibly
/// empty), the headers in response order, and the body text.
pub struct ResponseView {
    pub version: String,
    pub status: u16,
    pub reason: String,
    pub headers: Vec<(String, String)>,
    pub body: String,
}

/// The style a piece of output is rendered in. The caller decides what each
/// style looks like; `Plain` text carries no styling.
#[derive(Clone, Copy, PartialEq, Eq, Structural, Debug)]
pub enum Style {
    Status,
    HeaderName,
    Json,
    Plain,
}

/// One piece of output text together with its style.
pub struct Segment {
    pub style: Style,
    pub text: String,
}

impl View for Segment {
    type V = (Style, Seq<char>);

    open spec fn view(&self) -> (Style, Seq<char>) {
        (self.style, self.text@)
    }
}

/// The views of a list of segments.
pub open spec fn seg_views(s: Seq<Segment>) -> Seq<(Style, Seq<char>)> {
    s.map_values(|g: Segment| g@)
}

/// The views of a list of headers, as character sequences.
pub open spec fn header_views(hs: Seq<(String, String)>) -> Seq<(Seq<char>, Seq<char>)> {
    hs.map_values(|h: (String, String)| (h.0@, h.1@))
}

/// The status line: protocol version, status code, and the reason phrase when
/// there is one, separated by single spaces.
pub open spec fn status_line(version: Seq<char>, status: u16, reason: Seq<char>) -> Seq<char> {
    let base = version + seq![' '] + dec_rep(status as nat);
    if reason.len() == 0 {
        base
    } else {
        base + seq![' '] + reason
    }
}

/// The name of the header that declares the body's media type.
pub open spec fn content_type_name() -> Seq<char> {
    "content-type"@
}

/// The index of the first header whose name equals `name` up to ASCII case,
/// or `-1` when no header has it.
pub open spec fn find_header(hs: Seq<(Seq<char>, Seq<char>)>, name: Seq<char>) -> int
    decreases hs.len(),
{
    if hs.len() == 0 {
        -1
    } else if eq_ignore_ascii_case(hs[0].0, name) {
        0
    } else {
        let r = find_header(hs.drop_first(), name);
        if r == -1 {
            -1
        } else {
            r + 1
        }
    }
}

/// `find_header` finds the least matching index, and fails exactly when no
/// header name matches.
pub proof fn lemma_find_header(hs: Seq<(Seq<char>, Seq<char>)>, name: Seq<char>)
    ensures
        find_header(hs, name) == -1 <==> (forall|i: int|
            0 <= i < hs.len() ==> !eq_ignore_ascii_case(hs[i].0, name)),
        find_header(hs, name) != -1 ==> 0 <= find_header(hs, name) < hs.len()
            && eq_ignore_ascii_case(hs[find_header(hs, name)].0, name),
        find_header(hs, name) != -1 ==> forall|j: int|
            0 <= j < find_header(hs, name) ==> !eq_ignore_ascii_case(hs[j].0, name),
    decreases hs.len(),
{
    if hs.len() == 0 {
    } else if eq_ignore_ascii_case(hs[0].0, name) {
    } else {
        let rest = hs.drop_first();
        lemma_find_header(rest, name);
        assert forall|j: int| 0 <= j < rest.len() implies rest[j] == hs[j + 1] by {}
        if find_header(hs, name) == -1 {
            assert forall|i: int| 0 <= i < hs.len() implies !eq_ignore_ascii_case(
                hs[i].0,
                name,
            ) by {
                if i > 0 {
                    assert(rest[i - 1] == hs[i]);
                }
            }
        } else {
            let f = find_header(rest, name);
            assert(find_header(hs, name) == f + 1);
            assert(hs[f + 1] == rest[f]);
            assert forall|j: int| 0 <= j < f + 1 implies !eq_ignore_ascii_case(hs[j].0, name) by {
                if j > 0 {
                    assert(rest[j - 1] == hs[j]);
                }
            }
        }
        if forall|i: int| 0 <= i < hs.len() ==> !eq_ignore_ascii_case(hs[i].0, name) {
            assert forall|i: int| 0 <= i < rest.len() implies !eq_ignore_ascii_case(
                rest[i].0,
                name,
            ) by {
                assert(rest[i] == hs[i + 1]);
            }
        }
    }
}

/// The value of the first `Content-Type` header, when there is one.
pub open spec fn content_type_of(hs: Seq<(Seq<char>, Seq<char>)>) -> Option<Seq<char>> {
    let i = find_header(hs, content_type_name());
    if i == -1 {
        None
    } else {
        Some(hs[i].1)
    }
}

/// The media type (without parameters) that a `Content-Type` value declares,
/// when the value parses as a MIME type.
pub uninterp spec fn mime_essence_of(s: Seq<char>) -> Option<Seq<char>>;

/// Relies on `str::parse::<mime::Mime>` and `mime::Mime::essence_str`: whether
/// a string parses as a MIME type, and its `type/subtype` essence without
/// parameters, depend on the characters alone.
#[verifier::external_body]
fn mime_essence(s: &str) -> (r: Option<String>)
    ensures
        match r {
            Some(e) => mime_essence_of(s@) == Some(e@),
            None => mime_essence_of(s@) is None,
        },
{
    s.parse::<mime::Mime>().ok().map(|m| m.essence_str().to_owned())
}

/// Whether a `Content-Type` value declares `application/json`, with any
/// parameters (such as a charset) ignored.
pub open spec fn is_json_content_type(s: Seq<char>) -> bool {
    mime_essence_of(s) == Some("application/json"@)
}

fn content_type_is_json(s: &str) -> (r: bool)
    ensures
        r == is_json_content_type(s@),
{
    match mime_essence(s) {
        Some(e) => str_eq(e.as_str(), "application/json"),
        None => false,
    }
}

/// What `jsonxf::pretty_print` makes of a body text: the indented form, or an
/// error message.
pub uninterp spec fn pretty_json(s: Seq<char>) -> Result<Seq<char>, Seq<char>>;

/// Relies on `jsonxf::pretty_print`: the result depends on the input text
/// alone.
#[verifier::external_body]
fn pretty_print_json(s: &str) -> (r: Result<String, String>)
    ensures
        match r {
            Ok(p) => pretty_json(s@) matches Ok(q) && q == p@,
            Err(e) => pretty_json(s@) matches Err(q) && q == e@,
        },
{
    jsonxf::pretty_print(s)
}

/// A formatting error: the body claimed to be JSON could not be
/// pretty-printed, with the pretty-printer's message.
#[derive(Debug)]
pub enum RenderError {
    InvalidJson(String),
}

impl RenderError {
    /// A human-readable message.
    pub fn message(&self) -> (r: String)
        ensures
            self matches RenderError::InvalidJson(t) ==> r@ == "failed to pretty-print JSON body: "@
                + t@,
    {
        match self {
            RenderError::InvalidJson(t) => {
                let mut m = "failed to pretty-print JSON body: ".to_owned();
                m.append(t.as_str());
                m
            },
        }
    }
}

/// The two segments per header line: the styled name, then `: `, the value
/// and a line break, unstyled.
pub open spec fn header_segments(hs: Seq<(Seq<char>, Seq<char>)>) -> Seq<(Style, Seq<char>)>
    decreases hs.len(),
{
    if hs.len() == 0 {
        Seq::empty()
    } else {
        header_segments(hs.drop_last()) + seq![
            (Style::HeaderName, hs.last().0),
            (Style::Plain, seq![':', ' '] + hs.last().1 + seq!['\n']),
        ]
    }
}

/// Everything the formatter emits before the body: the styled status line and
/// a blank line, the header lines, and a blank line after them.
pub open spec fn head_segments(r: ResponseView) -> Seq<(Style, Seq<char>)> {
    seq![
        (Style::Status, status_line(r.version@, r.status, r.reason@)),
        (Style::Plain, seq!['\n', '\n']),
    ] + header_segments(header_views(r.headers@)) + seq![(Style::Plain, seq!['\n'])]
}

/// The whole output: status line, headers, then the body — pretty-printed
/// with the `Json` style when the `Content-Type` header declares
/// `application/json`, verbatim and unstyled otherwise (also when the header
/// is missing or does not parse as a MIME type). The error case carries the
/// pretty-printer's message.
pub open spec fn spec_render(r: ResponseView) -> Result<Seq<(Style, Seq<char>)>, Seq<char>> {
    let json = match content_type_of(header_views(r.headers@)) {
        Some(c) => is_json_content_type(c),
        None => false,
    };
    if json {
        match pretty_json(r.body@) {
            Ok(p) => Ok(head_segments(r) + seq![(Style::Json, p + seq!['\n'])]),
            Err(m) => Err(m),
        }
    } else {
        Ok(head_segments(r) + seq![(Style::Plain, r.body@ + seq!['\n'])])
    }
}

fn content_type_value(headers: &Vec<(String, String)>) -> (r: Option<String>)
    ensures
        match r {
            Some(v) => content_type_of(header_views(headers@)) == Some(v@),
            None => content_type_of(header_views(headers@)) is None,
        },
{
    let ghost hvs = header_views(headers@);
    proof {
        assert(hvs.len() == headers@.len());
    }
    let mut j: usize = 0;
    while j < headers.len()
        invariant
            j <= headers@.len(),
            hvs == header_views(headers@),
            hvs.len() == headers@.len(),
            forall|a: int| 0 <= a < j ==> !eq_ignore_ascii_case(hvs[a].0, content_type_name()),
        decreases headers@.len() - j,
    {
        proof {
            assert(hvs[j as int] == (headers@[j as int].0@, headers@[j as int].1@));
        }
        if str_eq_ignore_ascii_case(headers[j].0.as_str(), "content-type") {
            proof {
                lemma_find_header(hvs, content_type_name());
                let f = find_header(hvs, content_type_name());
                assert(f != -1) by {
                    if f == -1 {
                        assert(!eq_ignore_ascii_case(hvs[j as int].0, content_type_name()));
                    }
                }
                assert(f >= j) by {
                    if f < j {
                        assert(!eq_ignore_ascii_case(hvs[f].0, content_type_name()));
                    }
                }
                assert(f <= j) by {
                    if f > j {
                        assert(!eq_ignore_ascii_case(hvs[j as int].0, content_type_name()));
                    }
                }
            }
            return Some(headers[j].1.clone());
        }
        j += 1;
    }
    proof {
        lemma_find_header(hvs, content_type_name());
    }
    None
}

fn build_status_line(r: &ResponseView) -> (line: String)
    ensures
        line@ == status_line(r.version@, r.status, r.reason@),
{
    proof {
        reveal_strlit(" ");
    }
    let mut line = r.version.clone();
    line.append(" ");
    let code = dec_str(r.status);
    line.append(code.as_str());
    if !r.reason.as_str().is_empty() {
        line.append(" ");
        line.append(r.reason.as_str());
    }
    proof {
        assert(line@ =~= status_line(r.version@, r.status, r.reason@));
    }
    line
}

/// Renders a response as styled segments, in order: status line, blank line,
/// header lines, blank line, body. The body is pretty-printed as JSON exactly
/// when the `Content-Type` header declares `application/json` (parameters
/// ignored); otherwise it is passed through verbatim.
pub fn render_response(r: &ResponseView) -> (out: Result<Vec<Segment>, RenderError>)
    ensures
        match out {
            Ok(segs) => spec_render(*r) matches Ok(sv) && seg_views(segs@) == sv,
            Err(e) => e matches RenderError::InvalidJson(m) && (spec_render(*r) matches Err(mv)
                && m@ == mv),
        },
{
    let mut segs: Vec<Segment> = Vec::new();
    let line = build_status_line(r);
    segs.push(Segment { style: Style::Status, text: line });
    proof {
        reveal_strlit("\n\n");
    }
    segs.push(Segment { style: Style::Plain, text: "\n\n".to_owned() });
    let ghost hvs = header_views(r.headers@);
    let ghost head2 = seq![
        (Style::Status, status_line(r.version@, r.status, r.reason@)),
        (Style::Plain, seq!['\n', '\n']),
    ];
    proof {
        assert(seg_views(segs@) =~~= head2 + header_segments(hvs.take(0)));
    }
    let mut i: usize = 0;
    while i < r.headers.len()
        invariant
            i <= r.headers@.len(),
            hvs == header_views(r.headers@),
            hvs.len() == r.headers@.len(),
            head2 == seq![
                (Style::Status, status_line(r.version@, r.status, r.reason@)),
                (Style::Plain, seq!['\n', '\n']),
            ],
            seg_views(segs@) == head2 + header_segments(hvs.take(i as int)),
        decreases r.headers@.len() - i,
    {
        proof {
            reveal_strlit(": ");
            reveal_strlit("\n");
            assert(hvs[i as int] == (r.headers@[i as int].0@, r.headers@[i as int].1@));
        }
        let ghost before = seg_views(segs@);
        let name = r.headers[i].0.clone();
        segs.push(Segment { style: Style::HeaderName, text: name });
        let mut rest = ": ".to_owned();
        rest.append(r.headers[i].1.as_str());
        rest.append("\n");
        segs.push(Segment { style: Style::Plain, text: rest });
        proof {
            let pre = hvs.take(i as int);
            let post = hvs.take(i + 1);
            assert(post.drop_last() =~= pre);
            assert(post.last() == hvs[i as int]);
            assert(seg_views(segs@) =~~= before + seq![
                (Style::HeaderName, hvs[i as int].0),
                (Style::Plain, seq![':', ' '] + hvs[i as int].1 + seq!['\n']),
            ]);
            assert(seg_views(segs@) =~~= head2 + header_segments(post));
        }
        i += 1;
    }
    proof {
        reveal_strlit("\n");
        assert(hvs.take(r.headers@.len() as int) =~= hvs);
    }
    segs.push(Segment { style: Style::Plain, text: "\n".to_owned() });
    proof {
        assert(seg_views(segs@) =~~= head_segments(*r));
    }
    let json = match content_type_value(&r.headers) {
        Some(ct) => content_type_is_json(ct.as_str()),
        None => false,
    };
    if json {
        match pretty_print_json(r.body.as_str()) {
            Ok(mut p) => {
                proof {
                    reveal_strlit("\n");
                }
                let ghost pv = p@;
                p.append("\n");
                let ghost head = seg_views(segs@);
                segs.push(Segment { style: Style::Json, text: p });
                proof {
                    assert(seg_views(segs@) =~~= head.push((Style::Json, pv + seq!['\n'])));
                    assert(seg_views(segs@) =~~= head_segments(*r) + seq![
                        (Style::Json, pv + seq!['\n']),
                    ]);
                }
                Ok(segs)
            },
            Err(m) => Err(RenderError::InvalidJson(m)),
        }
    } else {
        proof {
            reveal_strlit("\n");
        }
        let mut b = r.body.clone();
        b.append("\n");
        let ghost head = seg_views(segs@);
        segs.push(Segment { style: Style::Plain, text: b });
        proof {
            assert(seg_views(segs@) =~~= head.push((Style::Plain, r.body@ + seq!['\n'])));
            assert(seg_views(segs@) =~~= head_segments(*r) + seq![
                (Style::Plain, r.body@ + seq!['\n']),
            ]);
        }
        Ok(segs)
    }
}

} // verus!
