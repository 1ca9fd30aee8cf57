use back_office::requests::{
    CreateNewClient, CreateNewFee, CreateNewOrderFee, CreateNewPartner, CreateNewPayment,
    CreateNewPostponedPayment, CreateNewProcess, CreateNewProcessFee, CreateNewSeller,
};
use back_office::store::{Store, TableName};
use back_office::values::{Amount, Date, ModelError};
use back_office::views::{FeeView, PartnerView, ProcessView, SellerView};

fn client_req(name: &str, partner_pid: Option<u128>) -> CreateNewClient {
    CreateNewClient {
        name: name.to_string(),
        contact: "front desk".to_string(),
        phone: "555-0100".to_string(),
        phone2: None,
        email: "client@example.com".to_string(),
        partner_pid,
    }
}

fn partner_req(name: &str) -> CreateNewPartner {
    CreateNewPartner {
        name: name.to_string(),
        information: Some("referrals".to_string()),
        phone: None,
        email: Some("partner@example.com".to_string()),
    }
}

fn payment_req(bits: u32) -> CreateNewPayment {
    CreateNewPayment {
        value: Amount { bits },
        payment_date: None,
        due_date: Date { days: 739000 },
        payment_method: Some("pix".to_string()),
        currency: Some("BRL".to_string()),
        postponed_payment: None,
        open: true,
    }
}

/// A store with one process, partner, seller, client (of the partner), fee and order.
fn seeded() -> Store {
    let mut s = Store::new();
    assert_eq!(s.insert_process(100, 1, CreateNewProcess { case_type: "labor".to_string() }), Ok(1));
    assert_eq!(s.insert_partner(200, 1, partner_req("Acme")), Ok(1));
    assert_eq!(s.insert_seller(300, 1, CreateNewSeller { name: "Ana".to_string() }), Ok(1));
    assert_eq!(s.insert_client(400, 1, client_req("Bruno", Some(200))), Ok(1));
    assert_eq!(
        s.insert_fee(500, 1, CreateNewFee { fee: "success".to_string(), fee_type: Some("percent".to_string()) }),
        Ok(1)
    );
    let order = back_office::entities::Order {
        client_id: 1,
        process_id: 1,
        seller_id: 1,
        open: true,
        payout: Amount { bits: 0 },
        fee: Amount { bits: 7 },
        partner_fee: None,
    };
    assert_eq!(s.insert_order(600, 1, order), Ok(1));
    s
}

#[test]
fn created_process_is_found_by_its_identifier() {
    let mut s = Store::new();
    let id = s.insert_process(42, 1000, CreateNewProcess { case_type: "civil".to_string() });
    assert_eq!(id, Ok(1));
    let e = s.processes.find_by_pid(42).ok().unwrap();
    assert_eq!(e.id, 1);
    assert_eq!(e.pid, 42);
    assert_eq!(e.created_at, 1000);
    assert_eq!(e.updated_at, 1000);
    assert_eq!(e.data.case_type, "civil");
    assert!(s.processes.find_by_pid(43).is_err());
}

#[test]
fn keys_count_up_from_one() {
    let mut s = Store::new();
    assert_eq!(s.insert_seller(1, 0, CreateNewSeller { name: "a".to_string() }), Ok(1));
    assert_eq!(s.insert_seller(2, 0, CreateNewSeller { name: "b".to_string() }), Ok(2));
    assert_eq!(s.insert_seller(3, 0, CreateNewSeller { name: "c".to_string() }), Ok(3));
    assert_eq!(s.sellers.find_by_id(2).ok().unwrap().data.name, "b");
}

#[test]
fn taken_identifier_is_refused() {
    let mut s = Store::new();
    assert_eq!(s.insert_seller(9, 0, CreateNewSeller { name: "a".to_string() }), Ok(1));
    assert_eq!(
        s.insert_seller(9, 0, CreateNewSeller { name: "b".to_string() }),
        Err(ModelError::DuplicatePid)
    );
    assert_eq!(s.sellers.len(), 1);
    assert_eq!(s.sellers.next_id, 2);
}

#[test]
fn client_resolves_its_partner() {
    let s = seeded();
    let c = s.clients.find_by_pid(400).ok().unwrap();
    assert_eq!(c.data.partner_id, Some(1));
    assert_eq!(c.data.name, "Bruno");
}

#[test]
fn client_with_unknown_partner_is_refused() {
    let mut s = seeded();
    assert_eq!(s.insert_client(401, 2, client_req("Carla", Some(999))), Err(ModelError::EntityNotFound));
    assert_eq!(s.clients.len(), 1);
    assert_eq!(s.insert_client(401, 2, client_req("Carla", None)), Ok(2));
}

#[test]
fn dependent_insert_with_missing_reference_is_refused() {
    let mut s = seeded();
    let bad_fee = CreateNewOrderFee { fee_id: 77, order_id: 1, open: true, value: Amount { bits: 1 }, info: None };
    assert_eq!(s.insert_order_fee(700, 2, bad_fee), Err(ModelError::ForeignKeyViolation));
    let bad_order = CreateNewOrderFee { fee_id: 1, order_id: 77, open: true, value: Amount { bits: 1 }, info: None };
    assert_eq!(s.insert_order_fee(700, 2, bad_order), Err(ModelError::ForeignKeyViolation));
    assert_eq!(s.insert_payment(800, 2, 77, payment_req(5)), Err(ModelError::ForeignKeyViolation));
    assert_eq!(
        s.insert_postponed_payment(900, 2, CreateNewPostponedPayment { payment_id: 77, postponed_date: Date { days: 1 } }),
        Err(ModelError::ForeignKeyViolation)
    );
    let bad_link = CreateNewProcessFee { process_pid: 100, fee_pid: 12345 };
    assert_eq!(s.insert_process_fee(950, 2, bad_link), Err(ModelError::EntityNotFound));
    assert_eq!(s.order_fees.len(), 0);
    assert_eq!(s.payments.len(), 0);
    assert_eq!(s.processes_fees.len(), 0);
}

#[test]
fn update_keeps_identity_and_changes_fields() {
    let mut s = seeded();
    assert_eq!(s.update_partner(200, 50, partner_req("Acme Ltd")), Ok(1));
    let p = s.partners.find_by_pid(200).ok().unwrap();
    assert_eq!(p.id, 1);
    assert_eq!(p.created_at, 1);
    assert_eq!(p.updated_at, 50);
    assert_eq!(p.data.name, "Acme Ltd");
    assert_eq!(s.update_partner(201, 50, partner_req("x")), Err(ModelError::EntityNotFound));
}

#[test]
fn client_update_moves_to_no_partner() {
    let mut s = seeded();
    assert_eq!(s.update_client(400, 9, client_req("Bruno S.", None)), Ok(1));
    let c = s.clients.find_by_pid(400).ok().unwrap();
    assert_eq!(c.data.partner_id, None);
    assert_eq!(c.data.name, "Bruno S.");
    assert_eq!(s.update_client(400, 9, client_req("x", Some(5))), Err(ModelError::EntityNotFound));
}

#[test]
fn payment_update_keeps_its_order() {
    let mut s = seeded();
    assert_eq!(s.insert_payment(800, 2, 1, payment_req(5)), Ok(1));
    assert_eq!(s.update_payment(800, 3, payment_req(6)), Ok(1));
    let p = s.payments.find_by_pid(800).ok().unwrap();
    assert_eq!(p.data.order_id, 1);
    assert_eq!(p.data.value, Amount { bits: 6 });
    assert_eq!(p.updated_at, 3);
}

#[test]
fn process_fee_update_points_elsewhere() {
    let mut s = seeded();
    assert_eq!(s.insert_fee(501, 1, CreateNewFee { fee: "fixed".to_string(), fee_type: None }), Ok(2));
    assert_eq!(s.insert_process_fee(950, 2, CreateNewProcessFee { process_pid: 100, fee_pid: 500 }), Ok(1));
    assert_eq!(s.update_process_fee(950, 3, CreateNewProcessFee { process_pid: 100, fee_pid: 501 }), Ok(1));
    assert_eq!(s.processes_fees.find_by_pid(950).ok().unwrap().data.fee_id, 2);
    assert_eq!(
        s.update_process_fee(950, 3, CreateNewProcessFee { process_pid: 101, fee_pid: 501 }),
        Err(ModelError::EntityNotFound)
    );
}

#[test]
fn deleting_a_partner_cascades_down_to_postponed_dates() {
    let mut s = seeded();
    assert_eq!(s.insert_payment(800, 2, 1, payment_req(5)), Ok(1));
    assert_eq!(
        s.insert_postponed_payment(900, 2, CreateNewPostponedPayment { payment_id: 1, postponed_date: Date { days: 3 } }),
        Ok(1)
    );
    assert_eq!(
        s.insert_order_fee(700, 2, CreateNewOrderFee { fee_id: 1, order_id: 1, open: true, value: Amount { bits: 1 }, info: None }),
        Ok(1)
    );
    assert_eq!(s.insert_client(401, 2, client_req("Carla", None)), Ok(2));
    assert_eq!(s.delete(TableName::Partners, 200), Ok(()));
    assert_eq!(s.partners.len(), 0);
    assert_eq!(s.clients.len(), 1);
    assert_eq!(s.clients.get(0).pid, 401);
    assert_eq!(s.orders.len(), 0);
    assert_eq!(s.payments.len(), 0);
    assert_eq!(s.postponed_payments.len(), 0);
    assert_eq!(s.order_fees.len(), 0);
    assert_eq!(s.processes.len(), 1);
    assert_eq!(s.sellers.len(), 1);
    assert_eq!(s.fees.len(), 1);
}

#[test]
fn deleting_a_fee_removes_its_links_only() {
    let mut s = seeded();
    assert_eq!(s.insert_process_fee(950, 2, CreateNewProcessFee { process_pid: 100, fee_pid: 500 }), Ok(1));
    assert_eq!(
        s.insert_order_fee(700, 2, CreateNewOrderFee { fee_id: 1, order_id: 1, open: true, value: Amount { bits: 1 }, info: None }),
        Ok(1)
    );
    assert_eq!(s.delete(TableName::Fees, 500), Ok(()));
    assert_eq!(s.processes_fees.len(), 0);
    assert_eq!(s.order_fees.len(), 0);
    assert_eq!(s.orders.len(), 1);
    assert_eq!(s.processes.len(), 1);
}

#[test]
fn deleted_record_leaves_the_listing_and_keys_are_not_reused() {
    let mut s = seeded();
    assert_eq!(s.delete(TableName::Sellers, 300), Ok(()));
    assert!(s.sellers.find_by_pid(300).is_err());
    assert_eq!(s.orders.len(), 0);
    assert_eq!(s.delete(TableName::Sellers, 300), Err(ModelError::EntityNotFound));
    assert_eq!(s.insert_seller(301, 2, CreateNewSeller { name: "Bia".to_string() }), Ok(2));
}

#[test]
fn created_client_gets_a_fresh_identifier() {
    let mut s = seeded();
    let id = s.create_client(5, client_req("Dora", Some(200))).ok().unwrap();
    assert_eq!(id, 2);
    let e = s.clients.get(1);
    assert_eq!(e.id, 2);
    assert_ne!(e.pid, 400);
    let pid = e.pid;
    assert_eq!(s.clients.find_by_pid(pid).ok().unwrap().data.name, "Dora");
    assert_eq!(s.create_client(5, client_req("Eva", Some(1))), Err(ModelError::EntityNotFound));
}

#[test]
fn created_records_of_every_kind() {
    let mut s = Store::new();
    assert_eq!(s.create_process(1, CreateNewProcess { case_type: "tax".to_string() }), Ok(1));
    assert_eq!(s.create_partner(1, partner_req("P")), Ok(1));
    assert_eq!(s.create_seller(1, CreateNewSeller { name: "S".to_string() }), Ok(1));
    assert_eq!(s.create_fee(1, CreateNewFee { fee: "F".to_string(), fee_type: None }), Ok(1));
    let process_pid = s.processes.get(0).pid;
    let fee_pid = s.fees.get(0).pid;
    assert_eq!(s.create_process_fee(1, CreateNewProcessFee { process_pid, fee_pid }), Ok(1));
    assert_eq!(s.create_payment(1, 1, payment_req(1)), Err(ModelError::ForeignKeyViolation));
    assert_eq!(
        s.create_order_fee(1, CreateNewOrderFee { fee_id: 1, order_id: 1, open: false, value: Amount { bits: 0 }, info: None }),
        Err(ModelError::ForeignKeyViolation)
    );
    assert_eq!(
        s.create_postponed_payment(1, CreateNewPostponedPayment { payment_id: 1, postponed_date: Date { days: 0 } }),
        Err(ModelError::ForeignKeyViolation)
    );
}

#[test]
fn process_view_lists_linked_fees() {
    let mut s = seeded();
    assert_eq!(s.insert_fee(501, 1, CreateNewFee { fee: "fixed".to_string(), fee_type: None }), Ok(2));
    assert_eq!(s.insert_process(101, 1, CreateNewProcess { case_type: "family".to_string() }), Ok(2));
    assert_eq!(s.insert_process_fee(950, 2, CreateNewProcessFee { process_pid: 100, fee_pid: 501 }), Ok(1));
    assert_eq!(s.insert_process_fee(951, 2, CreateNewProcessFee { process_pid: 101, fee_pid: 500 }), Ok(2));
    assert_eq!(s.insert_process_fee(952, 2, CreateNewProcessFee { process_pid: 100, fee_pid: 500 }), Ok(3));
    let views = ProcessView::from_model(&s.processes, &s.processes_fees, &s.fees);
    assert_eq!(views.len(), 2);
    assert_eq!(views[0].pid, 100);
    assert_eq!(views[0].case_type, "labor");
    assert_eq!(views[0].fees.len(), 2);
    assert_eq!(views[0].fees[0].process_fee_pid, 950);
    assert_eq!(views[0].fees[0].fee_pid, 501);
    assert_eq!(views[0].fees[0].fee_name, "fixed");
    assert_eq!(views[0].fees[0].type_or_info, None);
    assert_eq!(views[0].fees[1].fee_pid, 500);
    assert_eq!(views[0].fees[1].type_or_info, Some("percent".to_string()));
    assert_eq!(views[1].fees.len(), 1);
    assert_eq!(views[1].fees[0].process_fee_pid, 951);
}

#[test]
fn simple_views_copy_fields() {
    let s = seeded();
    let partners = PartnerView::from_model(&s.partners);
    assert_eq!(partners.len(), 1);
    assert_eq!(partners[0].pid, 200);
    assert_eq!(partners[0].information, Some("referrals".to_string()));
    let sellers = SellerView::from_model(&s.sellers);
    assert_eq!(sellers[0].name, "Ana");
    let fees = FeeView::from_model(&s.fees);
    assert_eq!(fees[0].fee, "success");
    assert_eq!(fees[0].fee_type, Some("percent".to_string()));
}

#[test]
fn restore_puts_back_keys_and_moves_the_counter() {
    let mut s = Store::new();
    let e = back_office::table::Entry {
        id: 7,
        pid: 70,
        created_at: 1,
        updated_at: 2,
        data: back_office::entities::Seller { name: "Old".to_string() },
    };
    assert_eq!(s.sellers.restore(e), Ok(()));
    assert_eq!(s.sellers.next_id, 8);
    let dup = back_office::table::Entry {
        id: 7,
        pid: 71,
        created_at: 1,
        updated_at: 2,
        data: back_office::entities::Seller { name: "Dup".to_string() },
    };
    assert_eq!(s.sellers.restore(dup), Err(ModelError::DuplicateId));
    assert_eq!(s.insert_seller(80, 3, CreateNewSeller { name: "New".to_string() }), Ok(8));
}

#[test]
fn all_process_views_of_the_store() {
    let mut s = seeded();
    assert_eq!(s.insert_process_fee(950, 2, CreateNewProcessFee { process_pid: 100, fee_pid: 500 }), Ok(1));
    let views = ProcessView::find_all(&s);
    assert_eq!(views.len(), 1);
    assert_eq!(views[0].fees.len(), 1);
    assert_eq!(views[0].fees[0].fee_name, "success");
}
