//! The two API endpoints: what each replies, and when the payment provider is
//! contacted.

use crate::catalog::{Product, StorageError};
use crate::checkout::{
    amounts_fit, build_session_request, request_for, CheckoutError, CheckoutLineItem,
    SessionRequest,
};
use vstd::prelude::*;

verus! {

/// Where the provider sends a payer after a completed payment.
pub const SUCCESS_URL: &'static str = "http://localhost:5526/checkout-success";

/// Where the provider sends a payer who cancels.
pub const CANCEL_URL: &'static str = "http://localhost:5526/checkout-cancel";

/// The body of a reply, serialized as JSON by the server.
pub enum ReplyBody {
    /// A list of `{id, name, price, created_at}` objects.
    Products(Vec<Product>),
    /// `{url}`: where the payer completes checkout.
    Url(String),
    /// `{error}`.
    Error(String),
}

pub enum BodyView {
    Products(Seq<Product>),
    Url(Seq<char>),
    Error(Seq<char>),
}

impl View for ReplyBody {
    type V = BodyView;

    open spec fn view(&self) -> BodyView {
        match self {
            ReplyBody::Products(v) => BodyView::Products(v@),
            ReplyBody::Url(u) => BodyView::Url(u@),
            ReplyBody::Error(e) => BodyView::Error(e@),
        }
    }
}

/// An HTTP reply: status code and body.
pub struct ApiResponse {
    pub status: u16,
    pub body: ReplyBody,
}

pub struct ResponseView {
    pub status: u16,
    pub body: BodyView,
}

impl View for ApiResponse {
    type V = ResponseView;

    open spec fn view(&self) -> ResponseView {
        ResponseView { status: self.status, body: self.body@ }
    }
}

/// The error text of a reply to a failed catalogue read.
pub open spec fn storage_failure_text() -> Seq<char> {
    "failed to fetch products"@
}

/// The reply to `GET /api/products`: 200 with every row read, in the order
/// read; 500 with an error that does not repeat storage's own text.
pub fn products_reply(rows: Result<Vec<Product>, StorageError>) -> (r: ApiResponse)
    ensures
        match rows {
            Ok(v) => r@ == (ResponseView { status: 200, body: BodyView::Products(v@) }),
            Err(_) => r@ == (ResponseView { status: 500, body: BodyView::Error(storage_failure_text()) }),
        },
{
    match rows {
        Ok(v) => ApiResponse { status: 200, body: ReplyBody::Products(v) },
        Err(_) => ApiResponse {
            status: 500,
            body: ReplyBody::Error("failed to fetch products".to_owned()),
        },
    }
}

/// The error text of a reply to a refused checkout request.
pub open spec fn checkout_error_text(e: CheckoutError) -> Seq<char> {
    match e {
        CheckoutError::EmptyCart => "no line items in checkout request"@,
        CheckoutError::AmountOutOfRange { .. } => "line item amount out of range"@,
    }
}

/// The error text of the reply to line items that cannot be sent to the
/// provider.
pub open spec fn refusal_text(items: Seq<CheckoutLineItem>) -> Seq<char> {
    if items.len() == 0 {
        checkout_error_text(CheckoutError::EmptyCart)
    } else {
        checkout_error_text(CheckoutError::AmountOutOfRange { index: 0 })
    }
}

impl CheckoutError {
    /// A description of the error, for the reply.
    pub fn message(&self) -> (r: String)
        ensures
            r@ == checkout_error_text(*self),
    {
        match self {
            CheckoutError::EmptyCart => "no line items in checkout request".to_owned(),
            CheckoutError::AmountOutOfRange { .. } => "line item amount out of range".to_owned(),
        }
    }
}

/// What to do with a checkout request.
pub enum CheckoutStep {
    /// Ask the provider, once, to create this session.
    CallProvider(SessionRequest),
    /// Reply at once; the provider is not contacted.
    Respond(ApiResponse),
}

/// A checkout request reaches the provider: it has line items and every
/// amount fits.
pub open spec fn calls_provider(items: Seq<CheckoutLineItem>) -> bool {
    items.len() > 0 && amounts_fit(items)
}

/// The first step of `POST /api/create-checkout-session`: the session request
/// for the provider, or a 400 reply for a request that cannot be sent (an
/// empty list above all).
pub fn begin_checkout(items: &Vec<CheckoutLineItem>) -> (r: CheckoutStep)
    ensures
        (r is CallProvider) == calls_provider(items@),
        match r {
            CheckoutStep::CallProvider(req) => request_for(req, items@, SUCCESS_URL@, CANCEL_URL@),
            CheckoutStep::Respond(resp) => resp@ == (ResponseView {
                status: 400,
                body: BodyView::Error(refusal_text(items@)),
            }),
        },
{
    match build_session_request(items, SUCCESS_URL, CANCEL_URL) {
        Ok(req) => CheckoutStep::CallProvider(req),
        Err(e) => CheckoutStep::Respond(ApiResponse { status: 400, body: ReplyBody::Error(e.message()) }),
    }
}

/// What the provider answered to a session request.
pub enum ProviderOutcome {
    /// A session was created; `url` is where the payer goes, if the provider
    /// gave one.
    Created { url: Option<String> },
    /// The provider refused or could not be reached; `detail` describes it.
    Failed { detail: String },
}

/// The error text of a reply to a session created without a redirect URL.
pub open spec fn missing_url_text() -> Seq<char> {
    "No URL returned"@
}

/// The error text of a reply to a failed session request whose detail is
/// empty.
pub open spec fn provider_failure_text() -> Seq<char> {
    "payment provider error"@
}

/// The reply to a provider outcome.
pub open spec fn checkout_reply(o: ProviderOutcome) -> ResponseView {
    match o {
        ProviderOutcome::Created { url: Some(u) } => ResponseView { status: 200, body: BodyView::Url(u@) },
        ProviderOutcome::Created { url: None } => ResponseView {
            status: 500,
            body: BodyView::Error(missing_url_text()),
        },
        ProviderOutcome::Failed { detail } => ResponseView {
            status: 500,
            body: BodyView::Error(
                if detail@.len() == 0 {
                    provider_failure_text()
                } else {
                    detail@
                },
            ),
        },
    }
}

/// The last step of `POST /api/create-checkout-session`: the reply to what
/// the provider answered. It is a reply, never a second request.
pub fn finish_checkout(outcome: ProviderOutcome) -> (r: ApiResponse)
    ensures
        r@ == checkout_reply(outcome),
{
    match outcome {
        ProviderOutcome::Created { url: Some(u) } => ApiResponse { status: 200, body: ReplyBody::Url(u) },
        ProviderOutcome::Created { url: None } => ApiResponse {
            status: 500,
            body: ReplyBody::Error("No URL returned".to_owned()),
        },
        ProviderOutcome::Failed { detail } => {
            if detail.as_str().is_empty() {
                ApiResponse { status: 500, body: ReplyBody::Error("payment provider error".to_owned()) }
            } else {
                ApiResponse { status: 500, body: ReplyBody::Error(detail) }
            }
        },
    }
}

/// A checkout request whose line items all have positive prices and
/// quantities, with amounts that fit in an `i64`, goes to the provider, and a
/// session created with a URL is answered with 200 and exactly that URL.
pub proof fn lemma_checkout_reaches_url(items: Seq<CheckoutLineItem>, url: String)
    requires
        items.len() > 0,
        forall|i: int|
            0 <= i < items.len() ==> {
                &&& !(#[trigger] items[i]).unit_price.negative
                &&& items[i].unit_price.units > 0
                &&& items[i].quantity > 0
            },
        amounts_fit(items),
    ensures
        calls_provider(items),
        checkout_reply(ProviderOutcome::Created { url: Some(url) }) == (ResponseView {
            status: 200,
            body: BodyView::Url(url@),
        }),
{
}

/// A failed provider call is answered with a server-error status and a
/// non-empty error text.
pub proof fn lemma_provider_failure_reply(detail: String)
    ensures
        500 <= checkout_reply(ProviderOutcome::Failed { detail }).status < 600,
        checkout_reply(ProviderOutcome::Failed { detail }).body is Error,
        checkout_reply(ProviderOutcome::Failed { detail }).body->Error_0.len() > 0,
{
    reveal_strlit("payment provider error");
}

} // verus!
