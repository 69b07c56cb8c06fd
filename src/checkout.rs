//! Checkout line items and the session request handed to the payment
//! provider.

use crate::price::{fits_i64, Price};
use vstd::prelude::*;

verus! {

/// One purchasable entry of a checkout attempt.
pub struct CheckoutLineItem {
    pub id: u64,
    pub name: String,
    /// Unit price in major currency units.
    pub unit_price: Price,
    pub quantity: u64,
}

/// The currency that sessions are priced in.
#[derive(Clone, Copy, Debug, PartialEq, Eq, Structural)]
pub enum Currency {
    Gbp,
}

/// The kind of session: a single immediate charge.
#[derive(Clone, Copy, Debug, PartialEq, Eq, Structural)]
pub enum SessionMode {
    Payment,
}

/// One price-and-quantity line of a session request, in minor units.
pub struct ProviderLineItem {
    pub name: String,
    pub currency: Currency,
    pub unit_amount: i64,
    pub quantity: u64,
}

/// What the payment provider is asked to create.
pub struct SessionRequest {
    pub mode: SessionMode,
    pub success_url: String,
    pub cancel_url: String,
    pub line_items: Vec<ProviderLineItem>,
}

/// Why a checkout request cannot be sent to the provider.
#[derive(Clone, Copy, Debug, PartialEq, Eq, Structural)]
pub enum CheckoutError {
    /// The request holds no line item.
    EmptyCart,
    /// The amount of the line item at `index`, in minor units, does not fit
    /// in an `i64`.
    AmountOutOfRange { index: usize },
}

/// Every line item's amount in minor units fits in an `i64`.
pub open spec fn amounts_fit(items: Seq<CheckoutLineItem>) -> bool {
    forall|i: int| 0 <= i < items.len() ==> fits_i64(#[trigger] items[i].unit_price.minor_units())
}

/// `l` is the provider line for `item`.
pub open spec fn line_for(l: ProviderLineItem, item: CheckoutLineItem) -> bool {
    &&& l.name@ == item.name@
    &&& l.currency == Currency::Gbp
    &&& l.unit_amount == item.unit_price.minor_units()
    &&& l.quantity == item.quantity
}

/// `req` is the payment-mode session for `items`, one line per item in order,
/// with the given redirect addresses.
pub open spec fn request_for(
    req: SessionRequest,
    items: Seq<CheckoutLineItem>,
    success_url: Seq<char>,
    cancel_url: Seq<char>,
) -> bool {
    &&& req.mode == SessionMode::Payment
    &&& req.success_url@ == success_url
    &&& req.cancel_url@ == cancel_url
    &&& req.line_items@.len() == items.len()
    &&& forall|i: int| 0 <= i < items.len() ==> line_for(#[trigger] req.line_items@[i], items[i])
}

/// Translates line items into the provider's session request. An empty list
/// is refused, and so is a list where some amount in minor units does not fit
/// in an `i64` (the first such item is named).
pub fn build_session_request(items: &Vec<CheckoutLineItem>, success_url: &str, cancel_url: &str) -> (r:
    Result<SessionRequest, CheckoutError>)
    ensures
        match r {
            Ok(req) => items@.len() > 0 && amounts_fit(items@) && request_for(
                req,
                items@,
                success_url@,
                cancel_url@,
            ),
            Err(CheckoutError::EmptyCart) => items@.len() == 0,
            Err(CheckoutError::AmountOutOfRange { index }) => {
                &&& items@.len() > 0
                &&& index < items@.len()
                &&& !fits_i64(items@[index as int].unit_price.minor_units())
                &&& forall|j: int| 0 <= j < index ==> fits_i64(#[trigger] items@[j].unit_price.minor_units())
            },
        },
{
    if items.len() == 0 {
        return Err(CheckoutError::EmptyCart);
    }
    let mut lines: Vec<ProviderLineItem> = Vec::new();
    let mut i: usize = 0;
    while i < items.len()
        invariant
            i <= items@.len(),
            lines@.len() == i,
            forall|j: int| 0 <= j < i ==> line_for(#[trigger] lines@[j], items@[j]),
            forall|j: int| 0 <= j < i ==> fits_i64(#[trigger] items@[j].unit_price.minor_units()),
        decreases items@.len() - i,
    {
        let item = &items[i];
        match item.unit_price.to_minor_units() {
            None => {
                return Err(CheckoutError::AmountOutOfRange { index: i });
            },
            Some(amount) => {
                lines.push(
                    ProviderLineItem {
                        name: item.name.clone(),
                        currency: Currency::Gbp,
                        unit_amount: amount,
                        quantity: item.quantity,
                    },
                );
            },
        }
        i = i + 1;
    }
    Ok(
        SessionRequest {
            mode: SessionMode::Payment,
            success_url: success_url.to_owned(),
            cancel_url: cancel_url.to_owned(),
            line_items: lines,
        },
    )
}

} // verus!
