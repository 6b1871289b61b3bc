//! Status codes, error messages, and what is copied into the buffers that the
//! caller provides.

use vstd::prelude::*;

use crate::text;
use crate::{EngineError, Fault};

verus! {

/// Result of every fallible call. Negative codes are errors.
#[allow(non_camel_case_types)]
#[derive(Clone, Copy, Debug, PartialEq, Eq, Structural)]
pub enum morphit_status {
    /// Success.
    MORPHIT_OK,
    /// A step: the session has no iterations left; nothing was run.
    MORPHIT_DONE,
    /// A required pointer argument was NULL.
    MORPHIT_ERR_NULL_ARG,
    /// An argument was invalid (bad UTF-8, zero count, out-of-range index, ...).
    MORPHIT_ERR_INVALID_ARG,
    /// A file could not be read or written.
    MORPHIT_ERR_IO,
    /// The mesh could not be parsed or is unusable.
    MORPHIT_ERR_MESH,
    /// Unknown preset or key, wrong value type, or invalid value.
    MORPHIT_ERR_CONFIG,
    /// Operation not valid in the session's current state.
    MORPHIT_ERR_STATE,
    /// A run is active on this session (from another thread or from inside its
    /// own progress callback).
    MORPHIT_ERR_BUSY,
    /// The run was cancelled by the caller or the progress callback.
    MORPHIT_ERR_CANCELLED,
    /// The output buffer is too small; the required size was reported.
    MORPHIT_ERR_BUFFER_TOO_SMALL,
    /// An internal error (Rust panic) was caught at the API boundary.
    MORPHIT_ERR_PANIC,
    /// The worker thread pool is already running and cannot be reconfigured.
    MORPHIT_ERR_THREADPOOL,
}

/// The code of a status in C.
pub open spec fn status_code(s: morphit_status) -> int {
    match s {
        morphit_status::MORPHIT_OK => 0,
        morphit_status::MORPHIT_DONE => 1,
        morphit_status::MORPHIT_ERR_NULL_ARG => -1,
        morphit_status::MORPHIT_ERR_INVALID_ARG => -2,
        morphit_status::MORPHIT_ERR_IO => -3,
        morphit_status::MORPHIT_ERR_MESH => -4,
        morphit_status::MORPHIT_ERR_CONFIG => -5,
        morphit_status::MORPHIT_ERR_STATE => -6,
        morphit_status::MORPHIT_ERR_BUSY => -7,
        morphit_status::MORPHIT_ERR_CANCELLED => -8,
        morphit_status::MORPHIT_ERR_BUFFER_TOO_SMALL => -9,
        morphit_status::MORPHIT_ERR_PANIC => -10,
        morphit_status::MORPHIT_ERR_THREADPOOL => -11,
    }
}

impl morphit_status {
    /// The code of the status in C.
    pub fn code(self) -> (out: i32)
        ensures
            out == status_code(self),
    {
        match self {
            morphit_status::MORPHIT_OK => 0,
            morphit_status::MORPHIT_DONE => 1,
            morphit_status::MORPHIT_ERR_NULL_ARG => -1,
            morphit_status::MORPHIT_ERR_INVALID_ARG => -2,
            morphit_status::MORPHIT_ERR_IO => -3,
            morphit_status::MORPHIT_ERR_MESH => -4,
            morphit_status::MORPHIT_ERR_CONFIG => -5,
            morphit_status::MORPHIT_ERR_STATE => -6,
            morphit_status::MORPHIT_ERR_BUSY => -7,
            morphit_status::MORPHIT_ERR_CANCELLED => -8,
            morphit_status::MORPHIT_ERR_BUFFER_TOO_SMALL => -9,
            morphit_status::MORPHIT_ERR_PANIC => -10,
            morphit_status::MORPHIT_ERR_THREADPOOL => -11,
        }
    }
}

/// Every status has a code of its own, and exactly the errors have negative
/// ones.
pub proof fn status_codes_are_distinct(a: morphit_status, b: morphit_status)
    ensures
        status_code(a) == status_code(b) ==> a == b,
        status_code(a) >= 0 <==> a == morphit_status::MORPHIT_OK || a == morphit_status::MORPHIT_DONE,
{
}

/// Loss terms, by their place in the per-loss arrays.
#[allow(non_camel_case_types)]
#[derive(Clone, Copy, Debug, PartialEq, Eq, Structural)]
pub enum morphit_loss_id {
    MORPHIT_LOSS_COVERAGE,
    MORPHIT_LOSS_OVERLAP,
    MORPHIT_LOSS_BOUNDARY,
    MORPHIT_LOSS_SURFACE,
    MORPHIT_LOSS_CONTAINMENT,
    MORPHIT_LOSS_SQEM,
    MORPHIT_LOSS_HAUSDORFF,
    MORPHIT_LOSS_MESH_CONTAINMENT,
    MORPHIT_LOSS_MASS,
    MORPHIT_LOSS_COM,
    MORPHIT_LOSS_INERTIA,
    /// Not implemented; always 0.
    MORPHIT_LOSS_FLATNESS,
}

/// Number of entries in the per-loss arrays.
pub const MORPHIT_LOSS_COUNT: usize = 12;

/// The place of a loss in the per-loss arrays.
pub open spec fn loss_place(l: morphit_loss_id) -> int {
    match l {
        morphit_loss_id::MORPHIT_LOSS_COVERAGE => 0,
        morphit_loss_id::MORPHIT_LOSS_OVERLAP => 1,
        morphit_loss_id::MORPHIT_LOSS_BOUNDARY => 2,
        morphit_loss_id::MORPHIT_LOSS_SURFACE => 3,
        morphit_loss_id::MORPHIT_LOSS_CONTAINMENT => 4,
        morphit_loss_id::MORPHIT_LOSS_SQEM => 5,
        morphit_loss_id::MORPHIT_LOSS_HAUSDORFF => 6,
        morphit_loss_id::MORPHIT_LOSS_MESH_CONTAINMENT => 7,
        morphit_loss_id::MORPHIT_LOSS_MASS => 8,
        morphit_loss_id::MORPHIT_LOSS_COM => 9,
        morphit_loss_id::MORPHIT_LOSS_INERTIA => 10,
        morphit_loss_id::MORPHIT_LOSS_FLATNESS => 11,
    }
}

impl morphit_loss_id {
    /// The place of the loss in the per-loss arrays.
    pub fn place(self) -> (out: usize)
        ensures
            out == loss_place(self),
            out < MORPHIT_LOSS_COUNT,
    {
        match self {
            morphit_loss_id::MORPHIT_LOSS_COVERAGE => 0,
            morphit_loss_id::MORPHIT_LOSS_OVERLAP => 1,
            morphit_loss_id::MORPHIT_LOSS_BOUNDARY => 2,
            morphit_loss_id::MORPHIT_LOSS_SURFACE => 3,
            morphit_loss_id::MORPHIT_LOSS_CONTAINMENT => 4,
            morphit_loss_id::MORPHIT_LOSS_SQEM => 5,
            morphit_loss_id::MORPHIT_LOSS_HAUSDORFF => 6,
            morphit_loss_id::MORPHIT_LOSS_MESH_CONTAINMENT => 7,
            morphit_loss_id::MORPHIT_LOSS_MASS => 8,
            morphit_loss_id::MORPHIT_LOSS_COM => 9,
            morphit_loss_id::MORPHIT_LOSS_INERTIA => 10,
            morphit_loss_id::MORPHIT_LOSS_FLATNESS => 11,
        }
    }
}

/// Lifecycle of a session.
#[allow(non_camel_case_types)]
#[derive(Clone, Copy, Debug, PartialEq, Eq, Structural)]
pub enum morphit_session_state {
    /// Iterations remain.
    MORPHIT_STATE_RUNNING,
    /// Stopped early by the convergence test (`training.early_stopping`).
    MORPHIT_STATE_CONVERGED,
    /// All configured iterations ran.
    MORPHIT_STATE_COMPLETED,
    /// The final escaped-sphere prune ran; the result is final.
    MORPHIT_STATE_FINALIZED,
}

impl morphit_session_state {
    /// The code of the state in C.
    pub fn code(self) -> (out: i32)
        ensures
            out == match self {
                morphit_session_state::MORPHIT_STATE_RUNNING => 0int,
                morphit_session_state::MORPHIT_STATE_CONVERGED => 1,
                morphit_session_state::MORPHIT_STATE_COMPLETED => 2,
                morphit_session_state::MORPHIT_STATE_FINALIZED => 3,
            },
    {
        match self {
            morphit_session_state::MORPHIT_STATE_RUNNING => 0,
            morphit_session_state::MORPHIT_STATE_CONVERGED => 1,
            morphit_session_state::MORPHIT_STATE_COMPLETED => 2,
            morphit_session_state::MORPHIT_STATE_FINALIZED => 3,
        }
    }
}

/// Error carried from an API function body to its caller.
#[derive(Debug)]
pub struct FfiError {
    pub status: morphit_status,
    pub message: String,
}

/// The contents of an [`FfiError`].
pub struct FfiErrorView {
    pub status: morphit_status,
    pub message: Seq<char>,
}

impl View for FfiError {
    type V = FfiErrorView;

    open spec fn view(&self) -> FfiErrorView {
        FfiErrorView { status: self.status, message: self.message@ }
    }
}

/// The error for a pointer that must not be NULL.
pub open spec fn null_error(what: Seq<char>) -> FfiErrorView {
    FfiErrorView {
        status: morphit_status::MORPHIT_ERR_NULL_ARG,
        message: "`"@ + what + "` must not be NULL"@,
    }
}

/// The error for an invalid argument.
pub open spec fn invalid_error(message: Seq<char>) -> FfiErrorView {
    FfiErrorView { status: morphit_status::MORPHIT_ERR_INVALID_ARG, message }
}

/// The status that reports a failure of the optimizer.
pub open spec fn fault_status(f: Fault) -> morphit_status {
    match f {
        Fault::Io => morphit_status::MORPHIT_ERR_IO,
        Fault::Mesh => morphit_status::MORPHIT_ERR_MESH,
        Fault::Config => morphit_status::MORPHIT_ERR_CONFIG,
        Fault::State => morphit_status::MORPHIT_ERR_STATE,
        Fault::Cancelled => morphit_status::MORPHIT_ERR_CANCELLED,
    }
}

impl FfiError {
    /// An error with this status and message.
    pub fn new(status: morphit_status, message: &str) -> (out: FfiError)
        ensures
            out@ == (FfiErrorView { status, message: message@ }),
    {
        FfiError { status, message: String::from_str(message) }
    }

    /// A pointer that must not be NULL.
    pub fn null(what: &str) -> (out: FfiError)
        ensures
            out@ == null_error(what@),
    {
        let mut m = String::from_str("`");
        m.append(what);
        m.append("` must not be NULL");
        FfiError { status: morphit_status::MORPHIT_ERR_NULL_ARG, message: m }
    }

    /// An invalid argument.
    pub fn invalid(message: &str) -> (out: FfiError)
        ensures
            out@ == invalid_error(message@),
    {
        FfiError::new(morphit_status::MORPHIT_ERR_INVALID_ARG, message)
    }

    /// A failure of the optimizer.
    pub fn from_engine(e: &EngineError) -> (out: FfiError)
        ensures
            out@ == (FfiErrorView { status: fault_status(e.fault), message: e.message@ }),
    {
        let status = match e.fault {
            Fault::Io => morphit_status::MORPHIT_ERR_IO,
            Fault::Mesh => morphit_status::MORPHIT_ERR_MESH,
            Fault::Config => morphit_status::MORPHIT_ERR_CONFIG,
            Fault::State => morphit_status::MORPHIT_ERR_STATE,
            Fault::Cancelled => morphit_status::MORPHIT_ERR_CANCELLED,
        };
        FfiError { status, message: e.message.clone() }
    }
}

/// How the body of a call ended.
#[derive(Debug)]
pub enum CallEnd {
    /// With a status.
    Status(morphit_status),
    /// With an error.
    Failed(FfiError),
    /// With a panic, and its message if it had one.
    Panicked(Option<String>),
}

/// A message as a C string: NULs become replacement characters.
pub open spec fn c_text(message: Seq<char>) -> Seq<char> {
    text::replace_char(message, '\0', '\u{FFFD}')
}

/// The status and the last error message after a call.
pub open spec fn call_result(end: CallEnd) -> (morphit_status, Seq<char>) {
    match end {
        CallEnd::Status(s) => (s, Seq::empty()),
        CallEnd::Failed(e) => (e.status, c_text(e.message@)),
        CallEnd::Panicked(m) => (
            morphit_status::MORPHIT_ERR_PANIC,
            c_text(
                "internal error: "@ + match m {
                    Some(t) => t@,
                    None => "unknown panic"@,
                },
            ),
        ),
    }
}

/// The status that a call returns and the message that it leaves for
/// `morphit_last_error`: empty after success.
pub fn finish_call(end: CallEnd) -> (out: (morphit_status, String))
    ensures
        (out.0, out.1@) == call_result(end),
{
    match end {
        CallEnd::Status(s) => (s, String::new()),
        CallEnd::Failed(e) => {
            let m = text::from_chars(&text::replaced(e.message.as_str(), '\0', '\u{FFFD}'));
            (e.status, m)
        },
        CallEnd::Panicked(p) => {
            let mut t = String::from_str("internal error: ");
            match p {
                Some(m) => t.append(m.as_str()),
                None => t.append("unknown panic"),
            }
            let m = text::from_chars(&text::replaced(t.as_str(), '\0', '\u{FFFD}'));
            (morphit_status::MORPHIT_ERR_PANIC, m)
        },
    }
}

/// What to do with a buffer of `cap` elements for `len` elements of data:
/// whether to copy, or the error. No buffer with no capacity is a size query.
pub open spec fn copy_result(len: nat, has_buffer: bool, cap: nat) -> Result<bool, FfiErrorView> {
    if !has_buffer {
        if cap == 0 {
            Ok(false)
        } else {
            Err(null_error("buffer"@))
        }
    } else if cap < len {
        Err(
            FfiErrorView {
                status: morphit_status::MORPHIT_ERR_BUFFER_TOO_SMALL,
                message: "buffer holds "@ + text::decimal(cap) + " elements, "@ + text::decimal(len)
                    + " needed"@,
            },
        )
    } else {
        Ok(true)
    }
}

/// Whether to copy `len` elements into a buffer of `cap` elements.
pub fn write_slice(len: usize, has_buffer: bool, cap: usize) -> (res: Result<bool, FfiError>)
    ensures
        match res {
            Ok(copy) => copy_result(len as nat, has_buffer, cap as nat) == Ok::<bool, FfiErrorView>(
                copy,
            ),
            Err(e) => copy_result(len as nat, has_buffer, cap as nat) == Err::<bool, FfiErrorView>(
                e@,
            ),
        },
        res matches Ok(true) ==> len <= cap,
{
    if !has_buffer {
        return if cap == 0 {
            Ok(false)
        } else {
            Err(FfiError::null("buffer"))
        };
    }
    if cap < len {
        let mut m = String::from_str("buffer holds ");
        text::push_decimal(&mut m, cap);
        m.append(" elements, ");
        text::push_decimal(&mut m, len);
        m.append(" needed");
        return Err(
            FfiError { status: morphit_status::MORPHIT_ERR_BUFFER_TOO_SMALL, message: m },
        );
    }
    Ok(true)
}

/// A copy is made only into a buffer that holds all of it, and a call with a
/// large enough buffer always copies.
pub proof fn copies_fit_their_buffer(len: nat, has_buffer: bool, cap: nat)
    ensures
        copy_result(len, has_buffer, cap) == Ok::<bool, FfiErrorView>(true) <==> has_buffer && len
            <= cap,
        copy_result(len, has_buffer, cap) == Ok::<bool, FfiErrorView>(false) <==> !has_buffer && cap
            == 0,
{
}

/// Which of the three sphere arrays a call asks for.
#[derive(Clone, Copy, Debug, PartialEq, Eq, Structural)]
pub struct SphereArrays {
    pub centers: bool,
    pub radii: bool,
    pub masses: bool,
}

/// What to copy of `n` spheres into arrays for `capacity` spheres: the arrays
/// that are there. None of them is a size query.
pub open spec fn sphere_copy(n: nat, asked: SphereArrays, capacity: nat) -> Result<
    SphereArrays,
    FfiErrorView,
> {
    if !asked.centers && !asked.radii && !asked.masses {
        Ok(asked)
    } else if capacity < n {
        Err(
            FfiErrorView {
                status: morphit_status::MORPHIT_ERR_BUFFER_TOO_SMALL,
                message: "capacity "@ + text::decimal(capacity) + " spheres, "@ + text::decimal(n)
                    + " needed"@,
            },
        )
    } else {
        Ok(asked)
    }
}

/// What to copy of `n` spheres into arrays for `capacity` spheres.
pub fn morphit_get_spheres(n: usize, asked: SphereArrays, capacity: usize) -> (res: Result<
    SphereArrays,
    FfiError,
>)
    ensures
        match res {
            Ok(a) => sphere_copy(n as nat, asked, capacity as nat) == Ok::<
                SphereArrays,
                FfiErrorView,
            >(a),
            Err(e) => sphere_copy(n as nat, asked, capacity as nat) == Err::<
                SphereArrays,
                FfiErrorView,
            >(e@),
        },
{
    if !asked.centers && !asked.radii && !asked.masses {
        return Ok(asked);
    }
    if capacity < n {
        let mut m = String::from_str("capacity ");
        text::push_decimal(&mut m, capacity);
        m.append(" spheres, ");
        text::push_decimal(&mut m, n);
        m.append(" needed");
        return Err(
            FfiError { status: morphit_status::MORPHIT_ERR_BUFFER_TOO_SMALL, message: m },
        );
    }
    Ok(asked)
}

/// The sizes of the arrays of a mesh with these counts.
pub open spec fn mesh_arrays(has_xyz: bool, vertices: nat, has_triangles: bool, triangles: nat) -> Result<
    (nat, nat),
    FfiErrorView,
> {
    if !has_xyz {
        Err(null_error("xyz"@))
    } else if !has_triangles {
        Err(null_error("triangles"@))
    } else if 3 * vertices > usize::MAX {
        Err(invalid_error("num_vertices too large"@))
    } else if 3 * triangles > usize::MAX {
        Err(invalid_error("num_triangles too large"@))
    } else {
        Ok((3 * vertices, 3 * triangles))
    }
}

/// The sizes of the coordinate and index arrays of a mesh.
pub fn morphit_mesh_from_arrays(
    has_xyz: bool,
    num_vertices: usize,
    has_triangles: bool,
    num_triangles: usize,
) -> (res: Result<(usize, usize), FfiError>)
    ensures
        match res {
            Ok((v, t)) => mesh_arrays(
                has_xyz,
                num_vertices as nat,
                has_triangles,
                num_triangles as nat,
            ) == Ok::<(nat, nat), FfiErrorView>((v as nat, t as nat)),
            Err(e) => mesh_arrays(
                has_xyz,
                num_vertices as nat,
                has_triangles,
                num_triangles as nat,
            ) == Err::<(nat, nat), FfiErrorView>(e@),
        },
{
    if !has_xyz {
        return Err(FfiError::null("xyz"));
    }
    if !has_triangles {
        return Err(FfiError::null("triangles"));
    }
    let v: usize = match num_vertices.checked_mul(3) {
        Some(n) => n,
        None => return Err(FfiError::invalid("num_vertices too large")),
    };
    let t: usize = match num_triangles.checked_mul(3) {
        Some(n) => n,
        None => return Err(FfiError::invalid("num_triangles too large")),
    };
    Ok((v, t))
}

/// The number of coordinates of the points to test; `None` when there is
/// nothing to do.
pub open spec fn point_array(points: nat, has_xyz: bool, has_out: bool) -> Result<
    Option<nat>,
    FfiErrorView,
> {
    if points == 0 {
        Ok(None)
    } else if !has_xyz {
        Err(null_error("xyz"@))
    } else if !has_out {
        Err(null_error("out"@))
    } else if 3 * points > usize::MAX {
        Err(invalid_error("num_points too large"@))
    } else {
        Ok(Some(3 * points))
    }
}

/// The number of coordinates of the points to test; `None` when there is
/// nothing to do.
pub fn morphit_mesh_contains(num_points: usize, has_xyz: bool, has_out: bool) -> (res: Result<
    Option<usize>,
    FfiError,
>)
    ensures
        match res {
            Ok(Some(n)) => point_array(num_points as nat, has_xyz, has_out) == Ok::<
                Option<nat>,
                FfiErrorView,
            >(Some(n as nat)),
            Ok(None) => point_array(num_points as nat, has_xyz, has_out) == Ok::<
                Option<nat>,
                FfiErrorView,
            >(None),
            Err(e) => point_array(num_points as nat, has_xyz, has_out) == Err::<
                Option<nat>,
                FfiErrorView,
            >(e@),
        },
{
    if num_points == 0 {
        return Ok(None);
    }
    if !has_xyz {
        return Err(FfiError::null("xyz"));
    }
    if !has_out {
        return Err(FfiError::null("out"));
    }
    match num_points.checked_mul(3) {
        Some(n) => Ok(Some(n)),
        None => Err(FfiError::invalid("num_points too large")),
    }
}

/// The name of a compute device: `"<name> (<kind>, <backend>)"`.
pub open spec fn device_label(name: Seq<char>, kind: Seq<char>, backend: Seq<char>) -> Seq<char> {
    name + " ("@ + kind + ", "@ + backend + ")"@
}

/// A compute device.
#[derive(Debug)]
pub struct DeviceInfo {
    pub name: String,
    pub kind: String,
    pub backend: String,
}

/// The name of device `index`, or the error when there is none.
pub fn morphit_device_name(devices: &[DeviceInfo], index: usize) -> (res: Result<String, FfiError>)
    ensures
        match res {
            Ok(t) => index < devices@.len() && t@ == device_label(
                devices@[index as int].name@,
                devices@[index as int].kind@,
                devices@[index as int].backend@,
            ),
            Err(e) => index >= devices@.len() && e@ == invalid_error(
                "device index "@ + text::decimal(index as nat) + " out of range (count "@
                    + text::decimal(devices@.len()) + ")"@,
            ),
        },
{
    if index < devices.len() {
        let d = &devices[index];
        let mut t = d.name.clone();
        t.append(" (");
        t.append(d.kind.as_str());
        t.append(", ");
        t.append(d.backend.as_str());
        t.append(")");
        Ok(t)
    } else {
        let mut m = String::from_str("device index ");
        text::push_decimal(&mut m, index);
        m.append(" out of range (count ");
        text::push_decimal(&mut m, devices.len());
        m.append(")");
        Err(FfiError::invalid(m.as_str()))
    }
}

/// Refuse a thread count of zero.
pub fn morphit_set_num_threads(num_threads: usize) -> (res: Result<(), FfiError>)
    ensures
        match res {
            Ok(()) => num_threads > 0,
            Err(e) => num_threads == 0 && e@ == invalid_error("num_threads must be at least 1"@),
        },
{
    if num_threads == 0 {
        Err(FfiError::invalid("num_threads must be at least 1"))
    } else {
        Ok(())
    }
}

/// The preset that a call names; NULL selects the default.
pub fn morphit_config_new(preset: Option<&str>) -> (out: String)
    ensures
        out@ == match preset {
            Some(p) => p@,
            None => "MorphIt-B"@,
        },
{
    match preset {
        Some(p) => String::from_str(p),
        None => String::from_str("MorphIt-B"),
    }
}

/// A configuration value, as far as an integer is read from it.
#[derive(Clone, Copy, Debug, PartialEq, Eq, Structural)]
pub enum ConfigValue {
    Bool(bool),
    Int(i64),
    Other,
}

/// Read an integer (or boolean, as 0/1) value of the key `key`.
pub fn morphit_config_get_i64(key: &str, value: ConfigValue) -> (res: Result<i64, FfiError>)
    ensures
        match res {
            Ok(n) => match value {
                ConfigValue::Bool(b) => n == (if b {
                    1int
                } else {
                    0
                }),
                ConfigValue::Int(i) => n == i,
                ConfigValue::Other => false,
            },
            Err(e) => value is Other && e@ == (FfiErrorView {
                status: morphit_status::MORPHIT_ERR_CONFIG,
                message: "`"@ + key@ + "` is not an integer"@,
            }),
        },
{
    match value {
        ConfigValue::Bool(b) => Ok(
            if b {
                1
            } else {
                0
            },
        ),
        ConfigValue::Int(n) => Ok(n),
        ConfigValue::Other => {
            let mut m = String::from_str("`");
            m.append(key);
            m.append("` is not an integer");
            Err(FfiError { status: morphit_status::MORPHIT_ERR_CONFIG, message: m })
        },
    }
}

/// The error when the value of `key` is not a number.
pub fn not_a_number(key: &str) -> (out: FfiError)
    ensures
        out@ == (FfiErrorView {
            status: morphit_status::MORPHIT_ERR_CONFIG,
            message: "`"@ + key@ + "` is not a number"@,
        }),
{
    let mut m = String::from_str("`");
    m.append(key);
    m.append("` is not a number");
    FfiError { status: morphit_status::MORPHIT_ERR_CONFIG, message: m }
}

/// What setting the log callback returns, where `installed` tells whether the
/// subscriber is this library's.
pub fn morphit_set_log_callback(installed: bool) -> (res: Result<morphit_status, FfiError>)
    ensures
        match res {
            Ok(s) => installed && s == morphit_status::MORPHIT_OK,
            Err(e) => !installed && e@ == (FfiErrorView {
                status: morphit_status::MORPHIT_ERR_STATE,
                message: "a global tracing subscriber is already installed"@,
            }),
        },
{
    if installed {
        Ok(morphit_status::MORPHIT_OK)
    } else {
        Err(
            FfiError::new(
                morphit_status::MORPHIT_ERR_STATE,
                "a global tracing subscriber is already installed",
            ),
        )
    }
}

/// Whether a number may be set, where `finite` tells whether it is finite.
pub fn morphit_config_set_f64(finite: bool) -> (res: Result<(), FfiError>)
    ensures
        match res {
            Ok(()) => finite,
            Err(e) => !finite && e@ == (FfiErrorView {
                status: morphit_status::MORPHIT_ERR_CONFIG,
                message: "value must be finite"@,
            }),
        },
{
    if finite {
        Ok(())
    } else {
        Err(FfiError::new(morphit_status::MORPHIT_ERR_CONFIG, "value must be finite"))
    }
}

/// Success is not negative, and every error is; the two that are no errors are told apart.
pub proof fn errors_are_negative(s: morphit_status)
    ensures
        status_code(s) >= 0 <==> s == morphit_status::MORPHIT_OK || s
            == morphit_status::MORPHIT_DONE,
        status_code(s) == 0 <==> s == morphit_status::MORPHIT_OK,
        -11 <= status_code(s) <= 1,
{
}

/// Every loss has its own place, and the places leave no gap.
pub proof fn losses_have_their_own_places(a: morphit_loss_id, b: morphit_loss_id)
    ensures
        loss_place(a) == loss_place(b) <==> a == b,
        0 <= loss_place(a) < 12,
{
}

/// Every failure of the optimizer has its own status.
pub proof fn faults_have_their_own_status(a: Fault, b: Fault)
    ensures
        fault_status(a) == fault_status(b) <==> a == b,
        status_code(fault_status(a)) < 0,
        a is Io ==> status_code(fault_status(a)) == -3,
        a is Mesh ==> status_code(fault_status(a)) == -4,
        a is Config ==> status_code(fault_status(a)) == -5,
        a is State ==> status_code(fault_status(a)) == -6,
        a is Cancelled ==> status_code(fault_status(a)) == -8,
{
}

/// A message for C has no NUL inside, and every other character at its place.
pub proof fn messages_hold_no_nul(m: Seq<char>, i: int)
    requires
        0 <= i < m.len(),
    ensures
        c_text(m).len() == m.len(),
        c_text(m)[i] != '\0',
        m[i] != '\0' ==> c_text(m)[i] == m[i],
{
}

/// A call that succeeds leaves no message, one that fails leaves its own, and a panic is an
/// error.
pub proof fn calls_leave_their_message(end: CallEnd)
    ensures
        end matches CallEnd::Status(s) ==> call_result(end) == (s, Seq::<char>::empty()),
        end matches CallEnd::Failed(e) ==> call_result(end).0 == e.status && call_result(end).1
            == c_text(e.message@),
        end is Panicked ==> status_code(call_result(end).0) == -10 && call_result(end).1.len() > 0,
{
    reveal_strlit("internal error: ");
    if let CallEnd::Panicked(m) = end {
        let t = "internal error: "@ + match m {
            Some(t) => t@,
            None => "unknown panic"@,
        };
        assert(t.len() > 0);
    }
}

/// The arrays of a mesh hold three numbers for every vertex and every triangle.
pub proof fn meshes_have_three_numbers_each(
    has_xyz: bool,
    vertices: nat,
    has_triangles: bool,
    triangles: nat,
)
    ensures
        mesh_arrays(has_xyz, vertices, has_triangles, triangles) is Ok <==> has_xyz && has_triangles
            && vertices + vertices + vertices <= usize::MAX && triangles + triangles + triangles
            <= usize::MAX,
        mesh_arrays(has_xyz, vertices, has_triangles, triangles) matches Ok((v, t)) ==> v == vertices
            + vertices + vertices && t == triangles + triangles + triangles,
        !has_xyz || !has_triangles ==> (mesh_arrays(has_xyz, vertices, has_triangles, triangles)
            matches Err(e) && status_code(e.status) == -1),
{
}

/// Points are tested where there are some, with three coordinates each.
pub proof fn points_have_three_coordinates(points: nat, has_xyz: bool, has_out: bool)
    ensures
        point_array(0, has_xyz, has_out) == Ok::<Option<nat>, FfiErrorView>(None),
        points > 0 && has_xyz && has_out && points + points + points <= usize::MAX ==> point_array(
            points,
            has_xyz,
            has_out,
        ) == Ok::<Option<nat>, FfiErrorView>(Some(points + points + points)),
        points > 0 && (!has_xyz || !has_out) ==> (point_array(points, has_xyz, has_out) matches Err(
            e,
        ) && status_code(e.status) == -1),
{
}

/// Spheres are copied into the arrays that are there, which have to be large enough.
pub proof fn spheres_are_copied_where_they_fit(n: nat, asked: SphereArrays, capacity: nat)
    ensures
        capacity >= n ==> sphere_copy(n, asked, capacity) == Ok::<SphereArrays, FfiErrorView>(asked),
        capacity < n && (asked.centers || asked.radii || asked.masses) ==> (sphere_copy(
            n,
            asked,
            capacity,
        ) matches Err(e) && status_code(e.status) == -9),
        !asked.centers && !asked.radii && !asked.masses ==> sphere_copy(n, asked, capacity) == Ok::<
            SphereArrays,
            FfiErrorView,
        >(asked),
{
}

} // verus!
