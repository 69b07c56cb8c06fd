use goodshop::api::{
    begin_checkout, finish_checkout, products_reply, CheckoutStep, ProviderOutcome, ReplyBody,
    CANCEL_URL, SUCCESS_URL,
};
use goodshop::catalog::{Product, StorageError};
use goodshop::checkout::{
    build_session_request, CheckoutError, CheckoutLineItem, Currency, SessionMode,
};
use goodshop::price::Price;

fn item(id: u64, name: &str, price: &str, quantity: u64) -> CheckoutLineItem {
    CheckoutLineItem {
        id,
        name: name.to_string(),
        unit_price: Price::parse(price).unwrap(),
        quantity,
    }
}

fn error_text(body: &ReplyBody) -> String {
    match body {
        ReplyBody::Error(e) => e.clone(),
        _ => panic!("not an error body"),
    }
}

#[test]
fn products_listed_as_stored() {
    let mug = Product {
        id: 1,
        name: "Mug".to_string(),
        price: Price::parse("9.5").unwrap(),
        created_at: 1700000000,
    };
    let reply = products_reply(Ok(vec![mug]));
    assert_eq!(reply.status, 200);
    match reply.body {
        ReplyBody::Products(rows) => {
            assert_eq!(rows.len(), 1);
            assert_eq!(rows[0].id, 1);
            assert_eq!(rows[0].name, "Mug");
            assert_eq!(rows[0].price.to_text(), "9.5");
            assert_eq!(rows[0].created_at, 1700000000);
        }
        _ => panic!("not a product list"),
    }
}

#[test]
fn products_keep_every_row_in_order() {
    let rows: Vec<Product> = (1..=3)
        .map(|i| Product {
            id: i,
            name: format!("Item {i}"),
            price: Price { negative: false, units: i as u64 * 100, scale: 2 },
            created_at: 1700000000 + i,
        })
        .collect();
    let reply = products_reply(Ok(rows));
    assert_eq!(reply.status, 200);
    match reply.body {
        ReplyBody::Products(rows) => {
            let ids: Vec<i64> = rows.iter().map(|p| p.id).collect();
            assert_eq!(ids, vec![1, 2, 3]);
            assert_eq!(rows[2].name, "Item 3");
        }
        _ => panic!("not a product list"),
    }
}

#[test]
fn empty_catalogue_lists_nothing() {
    let reply = products_reply(Ok(vec![]));
    assert_eq!(reply.status, 200);
    assert!(matches!(reply.body, ReplyBody::Products(ref v) if v.is_empty()));
}

#[test]
fn storage_failure_is_a_server_error() {
    let reply = products_reply(Err(StorageError { detail: "disk I/O error at /srv/db".to_string() }));
    assert_eq!(reply.status, 500);
    let text = error_text(&reply.body);
    assert_eq!(text, "failed to fetch products");
}

#[test]
fn mug_checkout_sends_one_line_of_950_pence() {
    match begin_checkout(&vec![item(1, "Mug", "9.5", 2)]) {
        CheckoutStep::CallProvider(req) => {
            assert_eq!(req.mode, SessionMode::Payment);
            assert_eq!(req.success_url, SUCCESS_URL);
            assert_eq!(req.cancel_url, CANCEL_URL);
            assert_eq!(req.line_items.len(), 1);
            let line = &req.line_items[0];
            assert_eq!(line.name, "Mug");
            assert_eq!(line.currency, Currency::Gbp);
            assert_eq!(line.unit_amount, 950);
            assert_eq!(line.quantity, 2);
        }
        CheckoutStep::Respond(_) => panic!("the provider should be called"),
    }
}

#[test]
fn checkout_keeps_line_order() {
    let items = vec![item(1, "Mug", "9.99", 1), item(2, "Tea", "0.005", 3)];
    match build_session_request(&items, "https://a.example/ok", "https://a.example/no") {
        Ok(req) => {
            assert_eq!(req.success_url, "https://a.example/ok");
            assert_eq!(req.cancel_url, "https://a.example/no");
            let amounts: Vec<(String, i64, u64)> = req
                .line_items
                .iter()
                .map(|l| (l.name.clone(), l.unit_amount, l.quantity))
                .collect();
            assert_eq!(amounts, vec![("Mug".to_string(), 999, 1), ("Tea".to_string(), 0, 3)]);
        }
        Err(e) => panic!("refused: {e:?}"),
    }
}

#[test]
fn empty_checkout_is_refused_without_provider() {
    assert!(matches!(
        build_session_request(&vec![], SUCCESS_URL, CANCEL_URL),
        Err(CheckoutError::EmptyCart)
    ));
    match begin_checkout(&vec![]) {
        CheckoutStep::Respond(resp) => {
            assert_eq!(resp.status, 400);
            assert_eq!(error_text(&resp.body), "no line items in checkout request");
        }
        CheckoutStep::CallProvider(_) => panic!("the provider must not be called"),
    }
}

#[test]
fn amount_out_of_range_names_the_first_item() {
    let items = vec![
        item(1, "Mug", "1", 1),
        item(2, "Yacht", "100000000000000000", 1),
        item(3, "Moon", "200000000000000000", 1),
    ];
    assert!(matches!(
        build_session_request(&items, SUCCESS_URL, CANCEL_URL),
        Err(CheckoutError::AmountOutOfRange { index: 1 })
    ));
    match begin_checkout(&items) {
        CheckoutStep::Respond(resp) => {
            assert_eq!(resp.status, 400);
            assert_eq!(error_text(&resp.body), "line item amount out of range");
        }
        CheckoutStep::CallProvider(_) => panic!("the provider must not be called"),
    }
}

#[test]
fn created_session_replies_with_its_url() {
    let url = "https://checkout.example/c/pay/cs_test_1".to_string();
    let reply = finish_checkout(ProviderOutcome::Created { url: Some(url.clone()) });
    assert_eq!(reply.status, 200);
    assert!(matches!(reply.body, ReplyBody::Url(ref u) if *u == url));
}

#[test]
fn created_session_without_url_is_an_error() {
    let reply = finish_checkout(ProviderOutcome::Created { url: None });
    assert_eq!(reply.status, 500);
    assert_eq!(error_text(&reply.body), "No URL returned");
}

#[test]
fn provider_failure_passes_its_detail() {
    let reply = finish_checkout(ProviderOutcome::Failed { detail: "invalid currency".to_string() });
    assert_eq!(reply.status, 500);
    assert_eq!(error_text(&reply.body), "invalid currency");
}

#[test]
fn provider_failure_error_is_never_empty() {
    let reply = finish_checkout(ProviderOutcome::Failed { detail: String::new() });
    assert!(reply.status >= 500 && reply.status < 600);
    assert!(!error_text(&reply.body).is_empty());
}
