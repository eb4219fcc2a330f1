//! Errors of compose operations.
use vstd::prelude::*;
use crate::backend::{decimal, join, join_strings, lit, u32_to_decimal};
use crate::types::views;

verus! {

/// The outcome of probing one container backend.
#[derive(Debug)]
pub struct BackendProbeResult {
    pub name: String,
    pub available: bool,
    pub reason: String,
}

/// Errors of compose operations.
#[derive(Debug)]
pub enum ComposeError {
    DependencyCycle { services: Vec<String> },
    ServiceStartupFailed { service: String, message: String },
    ImagePullFailed { service: String, image: String, message: String },
    BackendError { code: i32, message: String },
    NotFound(String),
    /// A YAML document did not parse; holds the parser's message.
    ParseError(String),
    /// A JSON document did not parse; holds the parser's message.
    JsonError(String),
    /// An I/O operation failed; holds the system's message.
    IoError(String),
    ValidationError { message: String },
    VerificationFailed { image: String, reason: String },
    FileNotFound { path: String },
    NoBackendFound { probed: Vec<BackendProbeResult> },
    BackendNotAvailable { name: String, reason: String },
}

impl ComposeError {
    /// A validation error with `message`.
    pub fn validation(message: String) -> (r: ComposeError)
        ensures
            r matches ComposeError::ValidationError { message: m } && m == message,
    {
        ComposeError::ValidationError { message }
    }
}

// ============ Messages ============

/// What `format!("{:?}", v)` gives for a list of strings.
pub uninterp spec fn strings_debug(v: Seq<Seq<char>>) -> Seq<char>;

/// Formats a list of strings with `{:?}` (`format!`); the text is named by
/// `strings_debug`, a function of the strings alone.
#[verifier::external_body]
fn debug_strings(v: &Vec<String>) -> (r: String)
    ensures
        r@ == strings_debug(views(v@)),
{
    format!("{:?}", v)
}

/// A probe result as plain values.
pub open spec fn probe_view(p: BackendProbeResult) -> (Seq<char>, bool, Seq<char>) {
    (p.name@, p.available, p.reason@)
}

/// What `format!("{:?}", s)` gives for a string: the string quoted, with
/// its special characters escaped.
pub uninterp spec fn string_debug(s: Seq<char>) -> Seq<char>;

/// Formats a string with `{:?}` (`format!`); the text is named by
/// `string_debug`, a function of the string alone.
#[verifier::external_body]
fn debug_string(s: &str) -> (r: String)
    ensures
        r@ == string_debug(s@),
{
    format!("{:?}", s)
}

/// A probe result in its `{:?}` form.
pub open spec fn probe_debug(p: (Seq<char>, bool, Seq<char>)) -> Seq<char> {
    "BackendProbeResult { name: "@ + string_debug(p.0) + ", available: "@ + (if p.1 {
        "true"@
    } else {
        "false"@
    }) + ", reason: "@ + string_debug(p.2) + " }"@
}

/// A list of probe results in its `{:?}` form: the results between
/// brackets, separated by `, `.
pub open spec fn probes_debug(v: Seq<(Seq<char>, bool, Seq<char>)>) -> Seq<char> {
    "["@ + join(v.map_values(|p: (Seq<char>, bool, Seq<char>)| probe_debug(p)), ", "@) + "]"@
}

fn debug_probe(p: &BackendProbeResult) -> (r: String)
    ensures
        r@ == probe_debug(probe_view(*p)),
{
    let mut s = lit("BackendProbeResult { name: ");
    s.append(debug_string(p.name.as_str()).as_str());
    s.append(", available: ");
    if p.available {
        s.append("true");
    } else {
        s.append("false");
    }
    s.append(", reason: ");
    s.append(debug_string(p.reason.as_str()).as_str());
    s.append(" }");
    s
}

/// Formats probe results as `format!("{:?}", v)` does.
fn debug_probes(v: &Vec<BackendProbeResult>) -> (r: String)
    ensures
        r@ == probes_debug(v@.map_values(|p: BackendProbeResult| probe_view(p))),
{
    let ghost pv = v@.map_values(|p: BackendProbeResult| probe_view(p));
    let ghost texts = pv.map_values(|p: (Seq<char>, bool, Seq<char>)| probe_debug(p));
    let mut parts: Vec<String> = Vec::new();
    let mut i: usize = 0;
    while i < v.len()
        invariant
            i <= v.len(),
            pv == v@.map_values(|p: BackendProbeResult| probe_view(p)),
            texts == pv.map_values(|p: (Seq<char>, bool, Seq<char>)| probe_debug(p)),
            views(parts@) == texts.take(i as int),
        decreases v.len() - i,
    {
        let t = debug_probe(&v[i]);
        assert(pv[i as int] == probe_view(v@[i as int]));
        assert(texts[i as int] == probe_debug(pv[i as int]));
        let ghost before = parts@;
        assert(pv.len() == v@.len() && texts.len() == pv.len());
        assert(views(before).len() == before.len());
        assert(before.len() == i);
        parts.push(t);
        assert(parts@ == before.push(t));
        assert forall|j: int| 0 <= j < i + 1 implies views(parts@)[j] == texts.take(i + 1)[j] by {
            if j < i {
                assert(views(before)[j] == texts.take(i as int)[j]);
                assert(parts@[j] == before[j]);
            } else {
                assert(parts@[j] == t);
            }
        }
        assert(views(parts@) =~= texts.take(i + 1));
        i = i + 1;
    }
    assert(texts.take(i as int) =~= texts);
    let mut s = lit("[");
    s.append(join_strings(&parts, ", ").as_str());
    s.append("]");
    s
}

/// The decimal form of a signed number.
pub open spec fn signed_decimal(n: int) -> Seq<char> {
    if n < 0 {
        seq!['-'] + decimal((-n) as nat)
    } else {
        decimal(n as nat)
    }
}

/// The decimal form of `n` (`i32::to_string`).
pub fn i32_to_decimal(n: i32) -> (r: String)
    ensures
        r@ == signed_decimal(n as int),
{
    if n < 0 {
        let m: i64 = -(n as i64);
        let mut s = lit("-");
        proof {
            reveal_strlit("-");
        }
        assert(0 < m <= 0x8000_0000);
        let d = u32_to_decimal(m as u32);
        s.append(d.as_str());
        assert(s@ =~= signed_decimal(n as int));
        s
    } else {
        u32_to_decimal(n as u32)
    }
}

impl ComposeError {
    /// The error's message (its `Display` text).
    pub open spec fn message_view(&self) -> Seq<char> {
        match self {
            ComposeError::DependencyCycle { services } => "Dependency cycle detected in services: "@
                + strings_debug(views(services@)),
            ComposeError::ServiceStartupFailed { service, message } => "Service '"@ + service@
                + "' failed to start: "@ + message@,
            ComposeError::ImagePullFailed { service, image, message } => "Image pull failed for service '"@
                + service@ + "' (image '"@ + image@ + "'): "@ + message@,
            ComposeError::BackendError { code, message } => "Backend error (exit "@ + signed_decimal(
                *code as int,
            ) + "): "@ + message@,
            ComposeError::NotFound(m) => "Not found: "@ + m@,
            ComposeError::ParseError(m) => "Parse error: "@ + m@,
            ComposeError::JsonError(m) => "JSON error: "@ + m@,
            ComposeError::IoError(m) => "I/O error: "@ + m@,
            ComposeError::ValidationError { message } => "Validation error: "@ + message@,
            ComposeError::VerificationFailed { image, reason } => "Image verification failed for '"@
                + image@ + "': "@ + reason@,
            ComposeError::FileNotFound { path } => "File not found: "@ + path@,
            ComposeError::NoBackendFound { probed } => "No container backend found. Probed: "@
                + probes_debug(probed@.map_values(|p: BackendProbeResult| probe_view(p))),
            ComposeError::BackendNotAvailable { name, reason } => "Specified backend '"@ + name@
                + "' is not available: "@ + reason@,
        }
    }

    /// The error's message (`to_string`).
    pub fn message(&self) -> (r: String)
        ensures
            r@ == self.message_view(),
    {
        let mut m: String;
        match self {
            ComposeError::DependencyCycle { services } => {
                m = lit("Dependency cycle detected in services: ");
                m.append(debug_strings(services).as_str());
            },
            ComposeError::ServiceStartupFailed { service, message } => {
                m = lit("Service '");
                m.append(service.as_str());
                m.append("' failed to start: ");
                m.append(message.as_str());
            },
            ComposeError::ImagePullFailed { service, image, message } => {
                m = lit("Image pull failed for service '");
                m.append(service.as_str());
                m.append("' (image '");
                m.append(image.as_str());
                m.append("'): ");
                m.append(message.as_str());
            },
            ComposeError::BackendError { code, message } => {
                m = lit("Backend error (exit ");
                m.append(i32_to_decimal(*code).as_str());
                m.append("): ");
                m.append(message.as_str());
            },
            ComposeError::NotFound(x) => {
                m = lit("Not found: ");
                m.append(x.as_str());
            },
            ComposeError::ParseError(x) => {
                m = lit("Parse error: ");
                m.append(x.as_str());
            },
            ComposeError::JsonError(x) => {
                m = lit("JSON error: ");
                m.append(x.as_str());
            },
            ComposeError::IoError(x) => {
                m = lit("I/O error: ");
                m.append(x.as_str());
            },
            ComposeError::ValidationError { message } => {
                m = lit("Validation error: ");
                m.append(message.as_str());
            },
            ComposeError::VerificationFailed { image, reason } => {
                m = lit("Image verification failed for '");
                m.append(image.as_str());
                m.append("': ");
                m.append(reason.as_str());
            },
            ComposeError::FileNotFound { path } => {
                m = lit("File not found: ");
                m.append(path.as_str());
            },
            ComposeError::NoBackendFound { probed } => {
                m = lit("No container backend found. Probed: ");
                m.append(debug_probes(probed).as_str());
            },
            ComposeError::BackendNotAvailable { name, reason } => {
                m = lit("Specified backend '");
                m.append(name.as_str());
                m.append("' is not available: ");
                m.append(reason.as_str());
            },
        }
        m
    }
}

} // verus!
