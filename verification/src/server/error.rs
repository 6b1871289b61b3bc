//! Error replies: `{"detail": ...}` with the status code, compact JSON.

use vstd::prelude::*;

use crate::json;
use crate::text;
use crate::{Error, ErrorView, Fault};

verus! {

/// One MiB.
pub const MB: usize = 1048576;

/// An error reply.
#[derive(Debug, PartialEq, Eq)]
pub struct ApiError {
    /// The HTTP status code.
    pub status: u16,
    /// The `detail` value, already serialized (keeps key order).
    pub detail: String,
}

/// The contents of an [`ApiError`].
pub struct ApiErrorView {
    pub status: int,
    pub detail: Seq<char>,
}

impl View for ApiError {
    type V = ApiErrorView;

    open spec fn view(&self) -> ApiErrorView {
        ApiErrorView { status: self.status as int, detail: self.detail@ }
    }
}

/// The reply with a text as its detail.
pub open spec fn reply(status: int, detail: Seq<char>) -> ApiErrorView {
    ApiErrorView { status, detail: json::quoted(detail) }
}

/// The 422 reply for one field: a list with one entry, keys in the order
/// `type, loc, msg, input`. `input` is JSON.
pub open spec fn field_reply(
    loc: Seq<char>,
    field: Seq<char>,
    kind: Seq<char>,
    msg: Seq<char>,
    input: Seq<char>,
) -> ApiErrorView {
    ApiErrorView {
        status: 422,
        detail: "[{\"type\":"@ + json::quoted(kind) + ",\"loc\":["@ + json::quoted(loc) + ","@
            + json::quoted(field) + "],\"msg\":"@ + json::quoted(msg) + ",\"input\":"@ + input
            + "}]"@,
    }
}

/// The 422 reply for a required field that is missing.
pub open spec fn missing_reply(loc: Seq<char>, field: Seq<char>) -> ApiErrorView {
    field_reply(loc, field, "missing"@, "Field required"@, "null"@)
}

/// `n / d`, rounded to the nearest integer, ties to the even one.
pub open spec fn rounded(n: int, d: int) -> int {
    let q = n / d;
    let r = n % d;
    if 2 * r > d || (2 * r == d && q % 2 == 1) {
        q + 1
    } else {
        q
    }
}

/// `n` bytes in MiB, with one decimal place.
pub open spec fn megabytes(n: nat) -> Seq<char> {
    let t = rounded(10 * n as int, 1048576);
    text::decimal((t / 10) as nat) + "."@ + text::decimal((t % 10) as nat)
}

/// `n` bytes in whole MiB.
pub open spec fn whole_megabytes(n: nat) -> Seq<char> {
    text::decimal(rounded(n as int, 1048576) as nat)
}

/// The advice of a 413 reply.
pub open spec fn shrink_advice() -> Seq<char> {
    " MB limit. Reduce the file size of the heaviest mesh by decimating it (e.g. trimesh's simplify_quadric_decimation, MeshLab's Quadric Edge Collapse, or Blender's Decimate modifier) or by replacing it with a convex decomposition (V-HACD, CoACD)."@
}

/// The 413 reply for an upload of `actual` bytes where `limit` are allowed.
pub open spec fn large_reply(actual: nat, limit: nat, kind: Seq<char>) -> ApiErrorView {
    reply(
        413,
        kind + " too large: "@ + megabytes(actual) + " MB exceeds the "@ + whole_megabytes(limit)
            + shrink_advice(),
    )
}

/// The reply that reports an error of the library.
pub open spec fn error_reply(e: ErrorView) -> ApiErrorView {
    match e {
        ErrorView::Invalid(m) => reply(400, m),
        ErrorView::Io(m) => reply(500, m),
        ErrorView::Morphit(x) => if x.fault is Mesh {
            reply(400, x.detail)
        } else {
            reply(500, x.message)
        },
    }
}

/// The body of a reply: `{"detail":...}`.
pub open spec fn reply_body(e: ApiErrorView) -> Seq<char> {
    "{\"detail\":"@ + e.detail + "}"@
}

/// `n / d`, rounded to the nearest integer, ties to the even one.
fn round_div(n: u128, d: u128) -> (q: u128)
    requires
        0 < d <= 1048576,
    ensures
        q == rounded(n as int, d as int),
{
    let q: u128 = n / d;
    let r: u128 = n % d;
    if 2 * r > d || (2 * r == d && q % 2 == 1) {
        assert(q < u128::MAX) by (nonlinear_arith)
            requires
                q == n as int / d as int,
                r == n as int % d as int,
                2 * r >= d,
                d > 0,
                n <= u128::MAX,
        ;
        q + 1
    } else {
        q
    }
}

/// Append `n` bytes in MiB, with one decimal place.
fn push_megabytes(out: &mut String, n: usize)
    ensures
        final(out)@ == old(out)@ + megabytes(n as nat),
{
    let ghost before = out@;
    let t: u128 = round_div(10 * (n as u128), 1048576);
    assert(t <= n / 100000 + 2);
    push_u(out, (t / 10) as usize);
    out.append(".");
    push_u(out, (t % 10) as usize);
    assert(out@ =~= before + megabytes(n as nat));
}

/// Append the decimal digits of `n`.
fn push_u(out: &mut String, n: usize)
    ensures
        final(out)@ == old(out)@ + text::decimal(n as nat),
{
    text::push_decimal(out, n)
}

impl ApiError {
    /// The reply with a text as its detail.
    pub fn new(status: u16, detail: &str) -> (out: ApiError)
        ensures
            out@ == reply(status as int, detail@),
    {
        ApiError { status, detail: json::quote(detail) }
    }

    /// 400.
    pub fn bad_request(detail: &str) -> (out: ApiError)
        ensures
            out@ == reply(400, detail@),
    {
        ApiError::new(400, detail)
    }

    /// 404.
    pub fn not_found(detail: &str) -> (out: ApiError)
        ensures
            out@ == reply(404, detail@),
    {
        ApiError::new(404, detail)
    }

    /// 403.
    pub fn forbidden(detail: &str) -> (out: ApiError)
        ensures
            out@ == reply(403, detail@),
    {
        ApiError::new(403, detail)
    }

    /// 500.
    pub fn internal(detail: &str) -> (out: ApiError)
        ensures
            out@ == reply(500, detail@),
    {
        ApiError::new(500, detail)
    }

    /// The request-validation error (422) for one field; `input` is the
    /// rejected text, `None` for null.
    pub fn validation(loc: &str, field: &str, kind: &str, msg: &str, input: Option<&str>) -> (out:
        ApiError)
        ensures
            out@ == field_reply(
                loc@,
                field@,
                kind@,
                msg@,
                match input {
                    Some(v) => json::quoted(v@),
                    None => "null"@,
                },
            ),
    {
        let mut d = String::from_str("[{\"type\":");
        d.append(json::quote(kind).as_str());
        d.append(",\"loc\":[");
        d.append(json::quote(loc).as_str());
        d.append(",");
        d.append(json::quote(field).as_str());
        d.append("],\"msg\":");
        d.append(json::quote(msg).as_str());
        d.append(",\"input\":");
        match input {
            Some(v) => d.append(json::quote(v).as_str()),
            None => d.append("null"),
        }
        d.append("}]");
        ApiError { status: 422, detail: d }
    }

    /// A required field is missing.
    pub fn missing(loc: &str, field: &str) -> (out: ApiError)
        ensures
            out@ == missing_reply(loc@, field@),
    {
        ApiError::validation(loc, field, "missing", "Field required", None)
    }

    /// 413 with advice on shrinking the mesh.
    pub fn too_large(actual: usize, limit: usize, kind: &str) -> (out: ApiError)
        ensures
            out@ == large_reply(actual as nat, limit as nat, kind@),
    {
        let mut d = String::from_str(kind);
        d.append(" too large: ");
        push_megabytes(&mut d, actual);
        d.append(" MB exceeds the ");
        let l: u128 = round_div(limit as u128, 1048576);
        assert(l <= limit / 1000000 + 1);
        push_u(&mut d, l as usize);
        d.append(
            " MB limit. Reduce the file size of the heaviest mesh by decimating it (e.g. trimesh's simplify_quadric_decimation, MeshLab's Quadric Edge Collapse, or Blender's Decimate modifier) or by replacing it with a convex decomposition (V-HACD, CoACD).",
        );
        ApiError::new(413, d.as_str())
    }

    /// The reply that reports an error of the library: 400 for invalid input
    /// and unusable meshes, 500 for everything else.
    pub fn from_error(e: &Error) -> (out: ApiError)
        ensures
            out@ == error_reply(e@),
    {
        match e {
            Error::Invalid(m) => ApiError::bad_request(m.as_str()),
            Error::Io(m) => ApiError::internal(m.as_str()),
            Error::Morphit(x) => if x.fault == Fault::Mesh {
                ApiError::bad_request(x.detail.as_str())
            } else {
                ApiError::internal(x.message.as_str())
            },
        }
    }

    /// The body of the reply: `{"detail":...}`.
    pub fn body(&self) -> (out: String)
        ensures
            out@ == reply_body(self@),
    {
        let mut out = String::from_str("{\"detail\":");
        out.append(self.detail.as_str());
        out.append("}");
        out
    }
}

/// Rounding gives the nearest integer, and of two that are as near the even one.
pub proof fn rounding_gives_the_nearest(n: int, d: int)
    requires
        d > 0,
        0 <= n,
    ensures
        -d <= 2 * (n - d * rounded(n, d)) <= d,
        2 * (n - d * rounded(n, d)) == d || 2 * (n - d * rounded(n, d)) == -d ==> rounded(n, d) % 2
            == 0,
{
    vstd::arithmetic::div_mod::lemma_fundamental_div_mod(n, d);
    vstd::arithmetic::div_mod::lemma_mod_bound(n, d);
    let q = n / d;
    let r = n % d;
    assert(d * (q + 1) == d * q + d) by (nonlinear_arith);
    assert(n - d * q == r);
    if rounded(n, d) == q + 1 {
        assert(n - d * (q + 1) == r - d);
    }
    if 2 * r == d && q % 2 == 1 {
        assert((q + 1) % 2 == 0);
    }
}

/// What a client sent wrong is answered with a 400, and what failed in the server with a 500.
pub proof fn errors_tell_whose_fault_it_is(e: ErrorView)
    ensures
        error_reply(e).status == 400 <==> e is Invalid || (e matches ErrorView::Morphit(x)
            && x.fault is Mesh),
        error_reply(e).status == 500 <==> e is Io || (e matches ErrorView::Morphit(x) && !(
        x.fault is Mesh)),
        e matches ErrorView::Invalid(m) ==> error_reply(e).detail == json::quoted(m),
        e matches ErrorView::Io(m) ==> error_reply(e).detail == json::quoted(m),
        e matches ErrorView::Morphit(x) ==> error_reply(e).detail == json::quoted(
            if x.fault is Mesh {
                x.detail
            } else {
                x.message
            },
        ),
{
}

/// Uploads that are too large and fields that are missing are answered with their own codes.
pub proof fn refusals_have_their_codes(
    actual: nat,
    limit: nat,
    kind: Seq<char>,
    loc: Seq<char>,
    field: Seq<char>,
    msg: Seq<char>,
    input: Seq<char>,
)
    ensures
        large_reply(actual, limit, kind).status == 413,
        field_reply(loc, field, kind, msg, input).status == 422,
        missing_reply(loc, field).status == 422,
{
}

} // verus!
