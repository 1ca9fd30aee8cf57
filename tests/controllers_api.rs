use back_office::controllers::clients::{self as client_api, UpdateClient};
use back_office::controllers::fees::{self as fee_api, UpdateFee};
use back_office::controllers::orders as order_api;
use back_office::controllers::partners::{self as partner_api, EditPartner};
use back_office::controllers::processes::{self as process_api, UpdateProcess};
use back_office::controllers::processes_fees::{self as link_api, DeleteProcessFee, UpdateProcessFee};
use back_office::controllers::sellers::{self as seller_api, EditSellet};
use back_office::requests::{
    CreateNewClient, CreateNewFee, CreateNewPartner, CreateNewProcess, CreateNewProcessFee,
    CreateNewSeller,
};
use back_office::store::Store;
use back_office::values::ModelError;

fn client(name: &str, partner_pid: Option<u128>) -> CreateNewClient {
    CreateNewClient {
        name: name.to_string(),
        contact: "c".to_string(),
        phone: "1".to_string(),
        phone2: None,
        email: "e@example.com".to_string(),
        partner_pid,
    }
}

#[test]
fn fee_requests_answer_with_all_fees() {
    let mut s = Store::new();
    let v = fee_api::create_new(&mut s, 1, CreateNewFee { fee: "a".to_string(), fee_type: None }).ok().unwrap();
    assert_eq!(v.len(), 1);
    let v = fee_api::create_new(&mut s, 1, CreateNewFee { fee: "b".to_string(), fee_type: Some("t".to_string()) }).ok().unwrap();
    assert_eq!(v.len(), 2);
    assert_eq!(v[1].fee, "b");
    let pid = v[0].pid;
    let v = fee_api::edit(&mut s, 2, UpdateFee { pid, fee: "a2".to_string(), fee_type: None }).ok().unwrap();
    assert_eq!(v[0].fee, "a2");
    assert_eq!(v[0].pid, pid);
    assert!(matches!(fee_api::edit(&mut s, 2, UpdateFee { pid: pid ^ 1, fee: "x".to_string(), fee_type: None }), Err(ModelError::EntityNotFound)));
    assert_eq!(fee_api::get_all(&s).len(), 2);
}

#[test]
fn partner_and_seller_requests() {
    let mut s = Store::new();
    let p = partner_api::create_new(
        &mut s,
        1,
        CreateNewPartner { name: "P".to_string(), information: None, phone: None, email: None },
    )
    .ok()
    .unwrap();
    let pid = p[0].pid;
    let p = partner_api::edit(
        &mut s,
        2,
        EditPartner { pid, name: "Q".to_string(), information: Some("i".to_string()), phone: None, email: None },
    )
    .ok()
    .unwrap();
    assert_eq!(p[0].name, "Q");
    assert_eq!(p[0].information, Some("i".to_string()));
    assert_eq!(partner_api::get_all(&s).len(), 1);
    let v = seller_api::create_new(&mut s, 1, CreateNewSeller { name: "S".to_string() }).ok().unwrap();
    let spid = v[0].pid;
    let v = seller_api::edit(&mut s, 2, EditSellet { pid: spid, name: "T".to_string() }).ok().unwrap();
    assert_eq!(v[0].name, "T");
    assert_eq!(seller_api::get_all(&s)[0].pid, spid);
}

#[test]
fn process_requests_answer_with_linked_fees() {
    let mut s = Store::new();
    let v = process_api::create_new(&mut s, 1, CreateNewProcess { case_type: "civil".to_string() }).ok().unwrap();
    let ppid = v[0].pid;
    let f = fee_api::create_new(&mut s, 1, CreateNewFee { fee: "fixed".to_string(), fee_type: None }).ok().unwrap();
    let fpid = f[0].pid;
    let v = link_api::create_new(&mut s, 2, CreateNewProcessFee { process_pid: ppid, fee_pid: fpid }).ok().unwrap();
    assert_eq!(v[0].fees.len(), 1);
    let link = v[0].fees[0].process_fee_pid;
    let v = process_api::update(&mut s, 3, UpdateProcess { pid: ppid, case_type: "tax".to_string() }).ok().unwrap();
    assert_eq!(v[0].case_type, "tax");
    assert_eq!(v[0].fees.len(), 1);
    assert!(matches!(
        link_api::update(&mut s, 4, UpdateProcessFee { process_fee_pid: link, process_pid: ppid, fee_pid: fpid ^ 1 }),
        Err(ModelError::EntityNotFound)
    ));
    let v = link_api::update(&mut s, 4, UpdateProcessFee { process_fee_pid: link, process_pid: ppid, fee_pid: fpid }).ok().unwrap();
    assert_eq!(v[0].fees[0].fee_pid, fpid);
    let v = link_api::del(&mut s, DeleteProcessFee { process_fee_pid: link }).ok().unwrap();
    assert_eq!(v[0].fees.len(), 0);
    assert!(matches!(link_api::del(&mut s, DeleteProcessFee { process_fee_pid: link }), Err(ModelError::EntityNotFound)));
    assert_eq!(process_api::get_all(&s).len(), 1);
    assert!(order_api::get_all(&s).is_empty());
}

#[test]
fn client_requests_answer_with_client_view() {
    let mut s = Store::new();
    let p = partner_api::create_new(
        &mut s,
        1,
        CreateNewPartner { name: "P".to_string(), information: None, phone: None, email: None },
    )
    .ok()
    .unwrap();
    let ppid = p[0].pid;
    let v = client_api::create_new(&mut s, 1, client("Ana", Some(ppid))).ok().unwrap();
    assert_eq!(v.name, "Ana");
    assert_eq!(v.partner.as_ref().unwrap().pid, ppid);
    assert!(v.orders.is_empty());
    assert!(matches!(client_api::create_new(&mut s, 1, client("Bia", Some(ppid ^ 1))), Err(ModelError::EntityNotFound)));
    let cpid = v.pid;
    let edit = UpdateClient {
        pid: cpid,
        name: "Ana B.".to_string(),
        contact: "d".to_string(),
        phone: "2".to_string(),
        phone2: Some("3".to_string()),
        email: "f@example.com".to_string(),
        partner_pid: None,
    };
    let v = client_api::update(&mut s, 2, edit).ok().unwrap();
    assert_eq!(v.pid, cpid);
    assert_eq!(v.name, "Ana B.");
    assert_eq!(v.phone2, Some("3".to_string()));
    assert!(v.partner.is_none());
    assert_eq!(client_api::get_all(&s).len(), 1);
}
