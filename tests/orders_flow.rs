use back_office::app::App;
use back_office::orders::{ClientViewResponse, GetOrderReturn, OrderPayments};
use back_office::requests::{
    CreateNewClient, CreateNewFee, CreateNewPartner, CreateNewProcess, CreateNewSeller,
};
use back_office::store::{Store, TableName};
use back_office::values::{Amount, Date, ModelError};
use back_office::workflow::{
    CreateNewOrder, JsonOrderFeesToCreate, JsonOrderToCreate, OrderPaymentsRequest,
};

fn seeded() -> Store {
    let mut s = Store::new();
    assert_eq!(s.insert_process(100, 1, CreateNewProcess { case_type: "labor".to_string() }), Ok(1));
    assert_eq!(
        s.insert_partner(
            200,
            1,
            CreateNewPartner { name: "Acme".to_string(), information: None, phone: None, email: None }
        ),
        Ok(1)
    );
    assert_eq!(s.insert_seller(300, 1, CreateNewSeller { name: "Ana".to_string() }), Ok(1));
    let client = CreateNewClient {
        name: "Bruno".to_string(),
        contact: "desk".to_string(),
        phone: "555".to_string(),
        phone2: Some("556".to_string()),
        email: "b@example.com".to_string(),
        partner_pid: Some(200),
    };
    assert_eq!(s.insert_client(400, 1, client), Ok(1));
    assert_eq!(
        s.insert_fee(500, 1, CreateNewFee { fee: "success".to_string(), fee_type: Some("percent".to_string()) }),
        Ok(1)
    );
    assert_eq!(s.insert_fee(501, 1, CreateNewFee { fee: "fixed".to_string(), fee_type: None }), Ok(2));
    s
}

fn payment_request(bits: u32, dates: Option<Vec<Date>>) -> OrderPaymentsRequest {
    OrderPaymentsRequest {
        value: Amount { bits },
        payment_date: None,
        due_date: Date { days: 739100 },
        payment_method: Some("card".to_string()),
        currency: None,
        postponed_payment: Some(dates.is_some()),
        open: true,
        postponed_dates: dates,
    }
}

fn order_request() -> JsonOrderToCreate {
    JsonOrderToCreate {
        process_pid: 100,
        client_pid: 400,
        open: true,
        fee: Amount { bits: 30 },
        fees: vec![
            JsonOrderFeesToCreate { fee_pid: 501, order_fee_pid: None, open: true, value: Amount { bits: 11 }, info: Some("first".to_string()) },
            JsonOrderFeesToCreate { fee_pid: 500, order_fee_pid: None, open: false, value: Amount { bits: 12 }, info: None },
        ],
        payout: None,
        partner_fee: Some(Amount { bits: 4 }),
        seller_pid: 300,
        payments: vec![
            payment_request(21, Some(vec![Date { days: 10 }, Date { days: 20 }])),
            payment_request(22, None),
        ],
    }
}

fn submitted(pid: Option<u128>, bits: u32, dates: Option<Vec<Date>>) -> OrderPayments {
    OrderPayments {
        pid,
        value: Amount { bits },
        payment_date: Some(Date { days: 5 }),
        due_date: Date { days: 739200 },
        payment_method: None,
        currency: Some("USD".to_string()),
        postponed_payment: Some(false),
        open: false,
        postponed_dates: dates,
    }
}

fn edit_request(payments: Vec<OrderPayments>, fees: Vec<JsonOrderFeesToCreate>) -> CreateNewOrder {
    CreateNewOrder {
        client_pid: 400,
        seller_pid: 300,
        process_pid: 100,
        open: false,
        fee: Amount { bits: 31 },
        fees,
        payout: Some(Amount { bits: 99 }),
        partner_fee: None,
        payments,
    }
}

#[test]
fn created_order_view_holds_everything() {
    let mut s = seeded();
    let v = s.create_order(77, &order_request()).ok().unwrap();
    assert_eq!(s.orders.len(), 1);
    let o = s.orders.get(0);
    assert_eq!(o.id, 1);
    assert_eq!(v.pid, o.pid);
    assert_eq!(o.created_at, 77);
    assert!(v.open);
    assert_eq!(v.fee, Amount { bits: 30 });
    assert_eq!(v.payout, Some(Amount { bits: 0 }));
    assert_eq!(v.partner_fee, Some(Amount { bits: 4 }));
    assert_eq!(v.seller.pid, 300);
    assert_eq!(v.seller.name, "Ana");
    assert_eq!(v.client.pid, 400);
    assert_eq!(v.client.phone, Some("555".to_string()));
    assert_eq!(v.client.email, Some("b@example.com".to_string()));
    assert_eq!(v.client.phone2, Some("556".to_string()));
    assert_eq!(v.client.partner.as_ref().unwrap().pid, 200);
    assert_eq!(v.process.pid, 100);
    assert_eq!(v.process.case_type, "labor");
    assert_eq!(v.fees.len(), 2);
    assert_eq!(v.fees[0].fee_pid, 501);
    assert_eq!(v.fees[0].fee, "fixed");
    assert_eq!(v.fees[0].value, Amount { bits: 11 });
    assert_eq!(v.fees[0].info, Some("first".to_string()));
    assert_eq!(v.fees[1].fee_pid, 500);
    assert_eq!(v.fees[1].fee_type, Some("percent".to_string()));
    assert!(!v.fees[1].open);
    assert_eq!(v.payments.len(), 2);
    assert_eq!(v.payments[0].value, Amount { bits: 21 });
    assert_eq!(v.payments[0].postponed_dates, Some(vec![Date { days: 10 }, Date { days: 20 }]));
    assert_eq!(v.payments[1].value, Amount { bits: 22 });
    assert_eq!(v.payments[1].postponed_dates, Some(vec![]));
    assert_eq!(s.payments.len(), 2);
    assert_eq!(s.postponed_payments.len(), 2);
    assert_eq!(s.order_fees.len(), 2);
}

#[test]
fn order_with_unknown_reference_writes_nothing() {
    let mut s = seeded();
    let mut req = order_request();
    req.seller_pid = 999;
    assert!(matches!(s.create_order(1, &req), Err(ModelError::EntityNotFound)));
    let mut req = order_request();
    req.fees[1].fee_pid = 999;
    assert!(matches!(s.create_order(1, &req), Err(ModelError::EntityNotFound)));
    assert_eq!(s.orders.len(), 0);
    assert_eq!(s.order_fees.len(), 0);
    assert_eq!(s.payments.len(), 0);
}

#[test]
fn found_order_matches_created_one() {
    let mut s = seeded();
    let created = s.create_order(3, &order_request()).ok().unwrap();
    let found = s.find_order(created.pid).ok().unwrap();
    assert_eq!(found.pid, created.pid);
    assert_eq!(found.fees.len(), 2);
    assert_eq!(found.payments[0].postponed_dates, Some(vec![Date { days: 10 }, Date { days: 20 }]));
    assert!(matches!(s.find_order(1), Err(ModelError::EntityNotFound)));
    let all = s.find_all_orders();
    assert_eq!(all.len(), 1);
    let same = GetOrderReturn::from(found);
    assert_eq!(same.pid, created.pid);
}

#[test]
fn order_found_by_written_identifier() {
    let mut s = seeded();
    let created = s.create_order(3, &order_request()).ok().unwrap();
    let text = uuid::Uuid::from_u128(created.pid).to_string();
    let found = s.find_order_by_pid(&text).ok().unwrap();
    assert_eq!(found.pid, created.pid);
    assert!(matches!(s.find_order_by_pid("not-an-identifier"), Err(ModelError::EntityNotFound)));
    let other = uuid::Uuid::from_u128(created.pid ^ 1).to_string();
    assert!(matches!(s.find_order_by_pid(&other), Err(ModelError::EntityNotFound)));
}

#[test]
fn edit_with_as_many_payments_edits_them_in_order() {
    let mut s = seeded();
    let created = s.create_order(3, &order_request()).ok().unwrap();
    let first_pid = created.payments[0].pid;
    let second_pid = created.payments[1].pid;
    let edit = edit_request(
        vec![submitted(first_pid, 41, None), submitted(None, 42, Some(vec![Date { days: 30 }]))],
        vec![],
    );
    let all = s.update_order(9, created.pid, &edit).ok().unwrap();
    assert_eq!(all.len(), 1);
    let v = &all[0];
    assert!(!v.open);
    assert_eq!(v.fee, Amount { bits: 31 });
    assert_eq!(v.payout, Some(Amount { bits: 99 }));
    assert_eq!(v.partner_fee, None);
    assert_eq!(s.payments.len(), 2);
    assert_eq!(v.payments[0].pid, first_pid);
    assert_eq!(v.payments[0].value, Amount { bits: 41 });
    assert_eq!(v.payments[0].postponed_payment, Some(false));
    assert_eq!(v.payments[0].postponed_dates, Some(vec![Date { days: 10 }, Date { days: 20 }]));
    assert_eq!(v.payments[1].pid, second_pid);
    assert_eq!(v.payments[1].value, Amount { bits: 42 });
    assert_eq!(v.payments[1].postponed_payment, Some(true));
    assert_eq!(v.payments[1].currency, Some("USD".to_string()));
    assert_eq!(v.payments[1].postponed_dates, Some(vec![Date { days: 30 }]));
    assert_eq!(s.orders.get(0).updated_at, 9);
    assert_eq!(s.orders.get(0).created_at, 3);
}

#[test]
fn edit_with_other_count_only_adds_new_payments() {
    let mut s = seeded();
    let created = s.create_order(3, &order_request()).ok().unwrap();
    let first_pid = created.payments[0].pid;
    let edit = edit_request(
        vec![submitted(first_pid, 41, None), submitted(None, 43, Some(vec![Date { days: 40 }])), submitted(None, 44, None)],
        vec![],
    );
    let all = s.update_order(9, created.pid, &edit).ok().unwrap();
    let v = &all[0];
    assert_eq!(v.payments.len(), 4);
    assert_eq!(v.payments[0].value, Amount { bits: 21 });
    assert_eq!(v.payments[1].value, Amount { bits: 22 });
    assert_eq!(v.payments[2].value, Amount { bits: 43 });
    assert_eq!(v.payments[2].postponed_dates, Some(vec![Date { days: 40 }]));
    assert_eq!(v.payments[2].postponed_payment, Some(false));
    assert_eq!(v.payments[3].value, Amount { bits: 44 });
}

#[test]
fn edit_charges_new_fees_and_edits_existing_ones() {
    let mut s = seeded();
    let created = s.create_order(3, &order_request()).ok().unwrap();
    let first = created.fees[0].order_fee_pid;
    let edit = edit_request(
        vec![],
        vec![
            JsonOrderFeesToCreate { fee_pid: 501, order_fee_pid: first, open: false, value: Amount { bits: 55 }, info: None },
            JsonOrderFeesToCreate { fee_pid: 500, order_fee_pid: None, open: true, value: Amount { bits: 56 }, info: Some("late".to_string()) },
        ],
    );
    let all = s.update_order(9, created.pid, &edit).ok().unwrap();
    let v = &all[0];
    assert_eq!(s.order_fees.len(), 3);
    assert_eq!(v.fees.len(), 3);
    assert_eq!(v.fees[0].order_fee_pid, first);
    assert!(!v.fees[0].open);
    assert_eq!(v.fees[0].value, Amount { bits: 55 });
    assert_eq!(v.fees[0].info, None);
    assert_eq!(v.fees[2].value, Amount { bits: 56 });
    assert_eq!(v.fees[2].info, Some("late".to_string()));
    assert_eq!(v.payments.len(), 2);
}

#[test]
fn edit_naming_missing_records_changes_nothing() {
    let mut s = seeded();
    let created = s.create_order(3, &order_request()).ok().unwrap();
    let mut edit = edit_request(vec![], vec![]);
    edit.client_pid = 12345;
    assert!(matches!(s.update_order(9, created.pid, &edit), Err(ModelError::EntityNotFound)));
    let edit = edit_request(
        vec![],
        vec![JsonOrderFeesToCreate { fee_pid: 501, order_fee_pid: Some(4242), open: true, value: Amount { bits: 1 }, info: None }],
    );
    assert!(matches!(s.update_order(9, created.pid, &edit), Err(ModelError::EntityNotFound)));
    let edit = edit_request(vec![], vec![]);
    assert!(matches!(s.update_order(9, 4242, &edit), Err(ModelError::EntityNotFound)));
    assert!(matches!(s.update_order_by_pid(9, "nope", &edit), Err(ModelError::EntityNotFound)));
    assert_eq!(s.orders.get(0).updated_at, 3);
    assert!(s.orders.get(0).data.open);
}

#[test]
fn client_view_lists_its_orders() {
    let mut s = seeded();
    let created = s.create_order(3, &order_request()).ok().unwrap();
    let c = s.clients.find_by_pid(400).ok().unwrap();
    let v = ClientViewResponse::from_model(&s, c);
    assert_eq!(v.pid, 400);
    assert_eq!(v.phone, Some("555".to_string()));
    assert_eq!(v.partner.as_ref().unwrap().name, "Acme");
    assert_eq!(v.orders.len(), 1);
    assert_eq!(v.orders[0].pid, created.pid);
    assert_eq!(v.orders[0].process.case_type, "labor");
    assert_eq!(v.orders[0].seller.name, "Ana");
    assert_eq!(v.orders[0].partner_fee, Some(Amount { bits: 4 }));
}

#[test]
fn deleting_an_order_takes_its_fees_and_payments() {
    let mut s = seeded();
    let created = s.create_order(3, &order_request()).ok().unwrap();
    assert_eq!(s.delete(TableName::Orders, created.pid), Ok(()));
    assert_eq!(s.orders.len(), 0);
    assert_eq!(s.order_fees.len(), 0);
    assert_eq!(s.payments.len(), 0);
    assert_eq!(s.postponed_payments.len(), 0);
    assert_eq!(s.clients.len(), 1);
    assert!(s.find_all_orders().is_empty());
}

#[test]
fn import_statement_for_processes() {
    assert_eq!(
        App::import_statement(TableName::Processes),
        "INSERT INTO processes (created_at, updated_at, id, pid, case_type) VALUES ($1, $2, $3, $4, $5)"
    );
}

#[test]
fn import_statement_for_payments_numbers_past_nine() {
    assert_eq!(
        App::import_statement(TableName::Payments),
        "INSERT INTO payments (created_at, updated_at, id, pid, value, payment_date, due_date, payment_method, currency, postponed_payment, order_id, open) VALUES ($1, $2, $3, $4, $5, $6, $7, $8, $9, $10, $11, $12)"
    );
}

#[test]
fn import_statement_for_order_fees() {
    assert_eq!(
        App::import_statement(TableName::OrderFees),
        "INSERT INTO order_fees (created_at, updated_at, id, pid, fee_id, order_id, open, value, info) VALUES ($1, $2, $3, $4, $5, $6, $7, $8, $9)"
    );
}

#[test]
fn version_text_prefers_build_commit() {
    assert_eq!(App::app_version("0.1.0", Some("abc"), Some("def")), "0.1.0 (abc)");
    assert_eq!(App::app_version("0.1.0", None, Some("def")), "0.1.0 (def)");
    assert_eq!(App::app_version("0.1.0", None, None), "0.1.0 (dev)");
}

#[test]
fn edit_resolves_the_seller() {
    let mut s = seeded();
    let created = s.create_order(3, &order_request()).ok().unwrap();
    let mut edit = edit_request(vec![], vec![]);
    edit.seller_pid = 12345;
    assert!(matches!(s.update_order(9, created.pid, &edit), Err(ModelError::EntityNotFound)));
    assert_eq!(s.orders.get(0).updated_at, 3);
    assert_eq!(s.insert_seller(301, 4, CreateNewSeller { name: "Bia".to_string() }), Ok(2));
    let mut edit = edit_request(vec![], vec![]);
    edit.seller_pid = 301;
    let all = s.update_order(9, created.pid, &edit).ok().unwrap();
    assert_eq!(all[0].seller.pid, 301);
    assert_eq!(all[0].seller.name, "Bia");
    assert_eq!(s.orders.get(0).data.seller_id, 2);
}

#[test]
fn deleting_an_order_answers_with_the_rest() {
    let mut s = seeded();
    let first = s.create_order(3, &order_request()).ok().unwrap();
    let second = s.create_order(4, &order_request()).ok().unwrap();
    let rest = s.delete_order(first.pid).ok().unwrap();
    assert_eq!(rest.len(), 1);
    assert_eq!(rest[0].pid, second.pid);
    assert_eq!(rest[0].payments.len(), 2);
    assert_eq!(s.payments.len(), 2);
    assert_eq!(s.order_fees.len(), 2);
    assert_eq!(s.postponed_payments.len(), 2);
    assert!(matches!(s.delete_order(first.pid), Err(ModelError::EntityNotFound)));
}
