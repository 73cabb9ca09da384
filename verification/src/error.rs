//! The failures of the role synchronisation.

use crate::outside::{quoted, to_quoted};
use crate::text::{decimal, decimal_text, has_text, holding_a_text, join, join3};
use vstd::prelude::*;

verus! {

/// What went wrong. Failures of the transport, of JSON and of the file system carry the text of
/// the underlying error.
#[derive(Debug, PartialEq, Eq)]
pub enum CambiumError {
    Http(String),
    KeycloakUnexpected { status: u16, body: String },
    NexusUnexpected { status: u16, body: String },
    NexusValidation { field: Option<String>, message: String },
    NotFound,
    NexusUserAlreadyExists(String),
    Json(String),
    ManifestIo { path: String, source: String },
    InvalidUpstreamUrl { var: String, value: String, reason: String },
    InvalidRoleMapEntry(String),
}

pub type CambiumResult<T> = Result<T, CambiumError>;

/// A `CambiumError` with its texts.
pub enum CambiumErrorView {
    Http(Seq<char>),
    KeycloakUnexpected { status: u16, body: Seq<char> },
    NexusUnexpected { status: u16, body: Seq<char> },
    NexusValidation { field: Option<Seq<char>>, message: Seq<char> },
    NotFound,
    NexusUserAlreadyExists(Seq<char>),
    Json(Seq<char>),
    ManifestIo { path: Seq<char>, source: Seq<char> },
    InvalidUpstreamUrl { var: Seq<char>, value: Seq<char>, reason: Seq<char> },
    InvalidRoleMapEntry(Seq<char>),
}

/// The text of an optional string.
pub open spec fn opt_text(text: Option<String>) -> Option<Seq<char>> {
    match text {
        Some(t) => Some(t@),
        None => None,
    }
}

impl View for CambiumError {
    type V = CambiumErrorView;

    open spec fn view(&self) -> CambiumErrorView {
        match *self {
            CambiumError::Http(e) => CambiumErrorView::Http(e@),
            CambiumError::KeycloakUnexpected { status, body } => {
                CambiumErrorView::KeycloakUnexpected { status, body: body@ }
            },
            CambiumError::NexusUnexpected { status, body } => {
                CambiumErrorView::NexusUnexpected { status, body: body@ }
            },
            CambiumError::NexusValidation { field, message } => {
                CambiumErrorView::NexusValidation { field: opt_text(field), message: message@ }
            },
            CambiumError::NotFound => CambiumErrorView::NotFound,
            CambiumError::NexusUserAlreadyExists(id) => {
                CambiumErrorView::NexusUserAlreadyExists(id@)
            },
            CambiumError::Json(e) => CambiumErrorView::Json(e@),
            CambiumError::ManifestIo { path, source } => {
                CambiumErrorView::ManifestIo { path: path@, source: source@ }
            },
            CambiumError::InvalidUpstreamUrl { var, value, reason } => {
                CambiumErrorView::InvalidUpstreamUrl {
                    var: var@,
                    value: value@,
                    reason: reason@,
                }
            },
            CambiumError::InvalidRoleMapEntry(entry) => {
                CambiumErrorView::InvalidRoleMapEntry(entry@)
            },
        }
    }
}

/// The message of an error, as an operator reads it.
pub open spec fn error_message(e: CambiumErrorView) -> Seq<char> {
    match e {
        CambiumErrorView::Http(e) => "HTTP request failed: "@ + e,
        CambiumErrorView::KeycloakUnexpected { status, body } => {
            "Keycloak API returned "@ + decimal(status as int) + ": "@ + body
        },
        CambiumErrorView::NexusUnexpected { status, body } => {
            "Nexus API returned "@ + decimal(status as int) + ": "@ + body
        },
        CambiumErrorView::NexusValidation { field, message } => {
            "Nexus rejected the request as invalid ("@ + (match field {
                Some(name) => "Some("@ + quoted(name) + ")"@,
                None => "None"@,
            }) + "): "@ + message
        },
        CambiumErrorView::NotFound => "resource not found"@,
        CambiumErrorView::NexusUserAlreadyExists(id) => {
            "Nexus user "@ + quoted(id) + " already exists"@
        },
        CambiumErrorView::Json(e) => "failed to (de)serialize JSON: "@ + e,
        CambiumErrorView::ManifestIo { path, source } => {
            "manifest I/O error at "@ + path + ": "@ + source
        },
        CambiumErrorView::InvalidUpstreamUrl { var, value, reason } => {
            "invalid "@ + var + " "@ + quoted(value) + ": "@ + reason
        },
        CambiumErrorView::InvalidRoleMapEntry(entry) => {
            "invalid ROLE_MAP entry "@ + quoted(entry)
                + " (expected \"keycloak-group:nexus-role\")"@
        },
    }
}

impl CambiumError {
    /// The message of the error.
    pub fn message(&self) -> (r: String)
        ensures
            r@ == error_message(self@),
    {
        match self {
            CambiumError::Http(e) => join("HTTP request failed: ", e.as_str()),
            CambiumError::KeycloakUnexpected { status, body } => {
                let head = join3(
                    "Keycloak API returned ",
                    decimal_text(*status as u64).as_str(),
                    ": ",
                );
                join(head.as_str(), body.as_str())
            },
            CambiumError::NexusUnexpected { status, body } => {
                let head = join3(
                    "Nexus API returned ",
                    decimal_text(*status as u64).as_str(),
                    ": ",
                );
                join(head.as_str(), body.as_str())
            },
            CambiumError::NexusValidation { field, message } => {
                let shown = match field {
                    Some(name) => join3("Some(", to_quoted(name.as_str()).as_str(), ")"),
                    None => "None".to_owned(),
                };
                let head = join3(
                    "Nexus rejected the request as invalid (",
                    shown.as_str(),
                    "): ",
                );
                join(head.as_str(), message.as_str())
            },
            CambiumError::NotFound => "resource not found".to_owned(),
            CambiumError::NexusUserAlreadyExists(id) => join3(
                "Nexus user ",
                to_quoted(id.as_str()).as_str(),
                " already exists",
            ),
            CambiumError::Json(e) => join("failed to (de)serialize JSON: ", e.as_str()),
            CambiumError::ManifestIo { path, source } => {
                let head = join3("manifest I/O error at ", path.as_str(), ": ");
                join(head.as_str(), source.as_str())
            },
            CambiumError::InvalidUpstreamUrl { var, value, reason } => {
                let head = join3("invalid ", var.as_str(), " ");
                let shown = join3(head.as_str(), to_quoted(value.as_str()).as_str(), ": ");
                join(shown.as_str(), reason.as_str())
            },
            CambiumError::InvalidRoleMapEntry(entry) => join3(
                "invalid ROLE_MAP entry ",
                to_quoted(entry.as_str()).as_str(),
                " (expected \"keycloak-group:nexus-role\")",
            ),
        }
    }
}

/// Three texts can be put together from either end.
proof fn lemma_regroup(a: Seq<char>, b: Seq<char>, c: Seq<char>)
    ensures
        a + b + c == a + (b + c),
{
    assert(a + b + c =~= a + (b + c));
}

/// A text holds what it ends with.
proof fn lemma_holds_its_end(head: Seq<char>, tail: Seq<char>)
    ensures
        has_text(head + tail, tail),
{
    holding_a_text(head, tail, Seq::empty());
    assert(head + tail + Seq::<char>::empty() =~= head + tail);
}

/// A message of two details ends with both of them.
proof fn lemma_ends_with_both(head: Seq<char>, first: Seq<char>, second: Seq<char>)
    ensures
        has_text(head + first + ": "@ + second, first + ": "@ + second),
{
    lemma_regroup(head, first, ": "@);
    lemma_regroup(head, first + ": "@, second);
    lemma_holds_its_end(head, first + ": "@ + second);
}

/// The message of a rejected request holds the field and what was said of it.
proof fn lemma_validation_message(field: Option<Seq<char>>, told: Seq<char>)
    ensures
        ({
            let message = error_message(
                CambiumErrorView::NexusValidation { field, message: told },
            );
            has_text(message, told) && (field matches Some(name) ==> has_text(
                message,
                quoted(name),
            ))
        }),
{
    let head = "Nexus rejected the request as invalid ("@;
    let shown = match field {
        Some(name) => "Some("@ + quoted(name) + ")"@,
        None => "None"@,
    };
    lemma_holds_its_end(head + shown + "): "@, told);
    match field {
        Some(name) => {
            lemma_regroup(head, "Some("@ + quoted(name), ")"@);
            lemma_regroup(head, "Some("@, quoted(name));
            lemma_regroup(head + "Some("@ + quoted(name), ")"@, "): "@);
            lemma_regroup(head + "Some("@ + quoted(name), ")"@ + "): "@, told);
            holding_a_text(head + "Some("@, quoted(name), ")"@ + "): "@ + told);
        },
        None => {},
    }
}

/// The message of a refused URL ends with the variable, the URL and the reason.
proof fn lemma_url_message(var: Seq<char>, value: Seq<char>, reason: Seq<char>)
    ensures
        has_text(
            error_message(CambiumErrorView::InvalidUpstreamUrl { var, value, reason }),
            var + " "@ + quoted(value) + ": "@ + reason,
        ),
{
    let head = "invalid "@;
    lemma_regroup(head, var, " "@);
    lemma_regroup(head, var + " "@, quoted(value));
    lemma_regroup(head, var + " "@ + quoted(value), ": "@);
    lemma_regroup(head, var + " "@ + quoted(value) + ": "@, reason);
    lemma_holds_its_end(head, var + " "@ + quoted(value) + ": "@ + reason);
}

/// The message of an error holds everything that the error carries: a text as it is, a status in
/// decimal, and what may be any text in quotes.
pub proof fn messages_hold_the_details(e: CambiumError)
    ensures
        match e {
            CambiumError::Http(text) => has_text(error_message(e@), text@),
            CambiumError::KeycloakUnexpected { status, body } => has_text(
                error_message(e@),
                decimal(status as int) + ": "@ + body@,
            ),
            CambiumError::NexusUnexpected { status, body } => has_text(
                error_message(e@),
                decimal(status as int) + ": "@ + body@,
            ),
            CambiumError::NexusValidation { field, message } => has_text(
                error_message(e@),
                message@,
            ) && (field matches Some(name) ==> has_text(error_message(e@), quoted(name@))),
            CambiumError::NotFound => error_message(e@) == "resource not found"@,
            CambiumError::NexusUserAlreadyExists(id) => has_text(error_message(e@), quoted(id@)),
            CambiumError::Json(text) => has_text(error_message(e@), text@),
            CambiumError::ManifestIo { path, source } => has_text(
                error_message(e@),
                path@ + ": "@ + source@,
            ),
            CambiumError::InvalidUpstreamUrl { var, value, reason } => has_text(
                error_message(e@),
                var@ + " "@ + quoted(value@) + ": "@ + reason@,
            ),
            CambiumError::InvalidRoleMapEntry(entry) => has_text(
                error_message(e@),
                quoted(entry@),
            ),
        },
{
    match e {
        CambiumError::Http(text) => {
            lemma_holds_its_end("HTTP request failed: "@, text@);
        },
        CambiumError::KeycloakUnexpected { status, body } => {
            lemma_ends_with_both("Keycloak API returned "@, decimal(status as int), body@);
        },
        CambiumError::NexusUnexpected { status, body } => {
            lemma_ends_with_both("Nexus API returned "@, decimal(status as int), body@);
        },
        CambiumError::NexusValidation { field, message } => {
            lemma_validation_message(opt_text(field), message@);
        },
        CambiumError::NotFound => {},
        CambiumError::NexusUserAlreadyExists(id) => {
            holding_a_text("Nexus user "@, quoted(id@), " already exists"@);
        },
        CambiumError::Json(text) => {
            lemma_holds_its_end("failed to (de)serialize JSON: "@, text@);
        },
        CambiumError::ManifestIo { path, source } => {
            lemma_ends_with_both("manifest I/O error at "@, path@, source@);
        },
        CambiumError::InvalidUpstreamUrl { var, value, reason } => {
            lemma_url_message(var@, value@, reason@);
        },
        CambiumError::InvalidRoleMapEntry(entry) => {
            holding_a_text(
                "invalid ROLE_MAP entry "@,
                quoted(entry@),
                " (expected \"keycloak-group:nexus-role\")"@,
            );
        },
    }
}

/// An error shows its texts and its status.
pub proof fn errors_show_their_texts(e: CambiumError)
    ensures
        match e {
            CambiumError::Http(text) => e@ == CambiumErrorView::Http(text@),
            CambiumError::KeycloakUnexpected { status, body } => {
                e@ is KeycloakUnexpected && e@->KeycloakUnexpected_status == status
                    && e@->KeycloakUnexpected_body == body@
            },
            CambiumError::NexusUnexpected { status, body } => {
                e@ is NexusUnexpected && e@->NexusUnexpected_status == status
                    && e@->NexusUnexpected_body == body@
            },
            CambiumError::NexusValidation { field, message } => {
                e@ is NexusValidation && e@->message == message@ && match field {
                    Some(name) => e@->field == Some(name@),
                    None => e@->field is None,
                }
            },
            CambiumError::NotFound => e@ is NotFound,
            CambiumError::NexusUserAlreadyExists(id) => {
                e@ == CambiumErrorView::NexusUserAlreadyExists(id@)
            },
            CambiumError::Json(text) => e@ == CambiumErrorView::Json(text@),
            CambiumError::ManifestIo { path, source } => {
                e@ is ManifestIo && e@->path == path@ && e@->source == source@
            },
            CambiumError::InvalidUpstreamUrl { var, value, reason } => {
                e@ is InvalidUpstreamUrl && e@->var == var@ && e@->value == value@ && e@->reason
                    == reason@
            },
            CambiumError::InvalidRoleMapEntry(entry) => {
                e@ == CambiumErrorView::InvalidRoleMapEntry(entry@)
            },
        },
{
}

} // verus!
