use vstd::prelude::*;

use crate::entities::{Fee, Partner, Process, ProcessFee, Seller};
use crate::store::Store;
use crate::table::{lemma_filter_push, Entry, Table};
use crate::values::copy_text;

verus! {

/// A partner as the outside sees it.
pub struct PartnerView {
    pub pid: u128,
    pub name: String,
    pub information: Option<String>,
    pub phone: Option<String>,
    pub email: Option<String>,
}

/// A seller as the outside sees it.
pub struct SellerView {
    pub pid: u128,
    pub name: String,
}

/// A fee as the outside sees it.
pub struct FeeView {
    pub pid: u128,
    pub fee: String,
    pub fee_type: Option<String>,
}

/// A fee linked to a process.
pub struct ProcessFees {
    pub process_fee_pid: u128,
    pub fee_pid: u128,
    pub fee_name: String,
    pub type_or_info: Option<String>,
}

/// A process with the fees linked to it.
pub struct ProcessView {
    pub pid: u128,
    pub case_type: String,
    pub fees: Vec<ProcessFees>,
}

pub open spec fn partner_view(e: Entry<Partner>) -> PartnerView {
    PartnerView {
        pid: e.pid,
        name: e.data.name,
        information: e.data.information,
        phone: e.data.phone,
        email: e.data.email,
    }
}

pub open spec fn seller_view(e: Entry<Seller>) -> SellerView {
    SellerView { pid: e.pid, name: e.data.name }
}

pub open spec fn fee_view(e: Entry<Fee>) -> FeeView {
    FeeView { pid: e.pid, fee: e.data.fee, fee_type: e.data.fee_type }
}

/// Mapping a sequence with one more element at its end.
pub proof fn lemma_map_push<A, B>(x: Seq<A>, a: A, f: spec_fn(A) -> B)
    ensures
        x.push(a).map_values(f) == x.map_values(f).push(f(a)),
{
    assert(x.push(a).map_values(f) =~= x.map_values(f).push(f(a)));
}

impl PartnerView {
    pub fn from(e: &Entry<Partner>) -> (r: PartnerView)
        ensures
            r == partner_view(*e),
    {
        PartnerView {
            pid: e.pid,
            name: e.data.name.clone(),
            information: copy_text(&e.data.information),
            phone: copy_text(&e.data.phone),
            email: copy_text(&e.data.email),
        }
    }

    /// Every partner of the table, in order.
    pub fn from_model(t: &Table<Partner>) -> (r: Vec<PartnerView>)
        ensures
            r@ == t@.map_values(|e: Entry<Partner>| partner_view(e)),
    {
        let mut out: Vec<PartnerView> = Vec::new();
        let mut i: usize = 0;
        while i < t.len()
            invariant
                i <= t@.len(),
                out@ == t@.take(i as int).map_values(|e: Entry<Partner>| partner_view(e)),
            decreases t@.len() - i,
        {
            out.push(PartnerView::from(t.get(i)));
            proof {
                assert(t@.take(i + 1) =~= t@.take(i as int).push(t@[i as int]));
                lemma_map_push(t@.take(i as int), t@[i as int], |e: Entry<Partner>| partner_view(e));
            }
            i = i + 1;
        }
        assert(t@.take(t@.len() as int) =~= t@);
        out
    }
}

impl SellerView {
    pub fn from(e: &Entry<Seller>) -> (r: SellerView)
        ensures
            r == seller_view(*e),
    {
        SellerView { pid: e.pid, name: e.data.name.clone() }
    }

    /// Every seller of the table, in order.
    pub fn from_model(t: &Table<Seller>) -> (r: Vec<SellerView>)
        ensures
            r@ == t@.map_values(|e: Entry<Seller>| seller_view(e)),
    {
        let mut out: Vec<SellerView> = Vec::new();
        let mut i: usize = 0;
        while i < t.len()
            invariant
                i <= t@.len(),
                out@ == t@.take(i as int).map_values(|e: Entry<Seller>| seller_view(e)),
            decreases t@.len() - i,
        {
            out.push(SellerView::from(t.get(i)));
            proof {
                assert(t@.take(i + 1) =~= t@.take(i as int).push(t@[i as int]));
                lemma_map_push(t@.take(i as int), t@[i as int], |e: Entry<Seller>| seller_view(e));
            }
            i = i + 1;
        }
        assert(t@.take(t@.len() as int) =~= t@);
        out
    }
}

impl FeeView {
    pub fn from(e: &Entry<Fee>) -> (r: FeeView)
        ensures
            r == fee_view(*e),
    {
        FeeView { pid: e.pid, fee: e.data.fee.clone(), fee_type: copy_text(&e.data.fee_type) }
    }

    /// Every fee of the table, in order.
    pub fn from_model(t: &Table<Fee>) -> (r: Vec<FeeView>)
        ensures
            r@ == t@.map_values(|e: Entry<Fee>| fee_view(e)),
    {
        let mut out: Vec<FeeView> = Vec::new();
        let mut i: usize = 0;
        while i < t.len()
            invariant
                i <= t@.len(),
                out@ == t@.take(i as int).map_values(|e: Entry<Fee>| fee_view(e)),
            decreases t@.len() - i,
        {
            out.push(FeeView::from(t.get(i)));
            proof {
                assert(t@.take(i + 1) =~= t@.take(i as int).push(t@[i as int]));
                lemma_map_push(t@.take(i as int), t@[i as int], |e: Entry<Fee>| fee_view(e));
            }
            i = i + 1;
        }
        assert(t@.take(t@.len() as int) =~= t@);
        out
    }
}

/// The links of the process with key `key` whose fee exists.
pub open spec fn links_of(pfs: Seq<Entry<ProcessFee>>, fees: Table<Fee>, key: i32) -> Seq<
    Entry<ProcessFee>,
> {
    pfs.filter(|pf: Entry<ProcessFee>| pf.data.process_id == key && fees.has_id(pf.data.fee_id))
}

/// How a link shows its fee.
pub open spec fn process_fee_view(fees: Table<Fee>, pf: Entry<ProcessFee>) -> ProcessFees {
    let fee = fees.row_of_key(pf.data.fee_id);
    ProcessFees {
        process_fee_pid: pf.pid,
        fee_pid: fee.pid,
        fee_name: fee.data.fee,
        type_or_info: fee.data.fee_type,
    }
}

/// The fees that a process's view lists: one for each link of the process
/// whose fee exists, in the order of the links.
pub open spec fn process_fee_views(pfs: Seq<Entry<ProcessFee>>, fees: Table<Fee>, key: i32) -> Seq<
    ProcessFees,
> {
    links_of(pfs, fees, key).map_values(|pf: Entry<ProcessFee>| process_fee_view(fees, pf))
}

/// `v` shows the process `e` with its linked fees.
pub open spec fn process_view_ok(
    v: ProcessView,
    e: Entry<Process>,
    pfs: Table<ProcessFee>,
    fees: Table<Fee>,
) -> bool {
    &&& v.pid == e.pid
    &&& v.case_type == e.data.case_type
    &&& v.fees@ == process_fee_views(pfs@, fees, e.id)
}

impl ProcessView {
    /// The view of one process, with the fees linked to it.
    pub fn from(e: &Entry<Process>, pfs: &Table<ProcessFee>, fees: &Table<Fee>) -> (r: ProcessView)
        requires
            fees.wf(),
        ensures
            process_view_ok(r, *e, *pfs, *fees),
    {
        let ghost pred = |pf: Entry<ProcessFee>| pf.data.process_id == e.id && fees.has_id(
            pf.data.fee_id,
        );
        let ghost f = |pf: Entry<ProcessFee>| process_fee_view(*fees, pf);
        let mut out: Vec<ProcessFees> = Vec::new();
        let mut i: usize = 0;
        while i < pfs.len()
            invariant
                fees.wf(),
                i <= pfs@.len(),
                pred == (|pf: Entry<ProcessFee>| pf.data.process_id == e.id && fees.has_id(
                    pf.data.fee_id,
                )),
                f == (|pf: Entry<ProcessFee>| process_fee_view(*fees, pf)),
                out@ == pfs@.take(i as int).filter(pred).map_values(f),
            decreases pfs@.len() - i,
        {
            let pf = pfs.get(i);
            proof {
                assert(pfs@.take(i + 1) =~= pfs@.take(i as int).push(pfs@[i as int]));
                lemma_filter_push(pfs@.take(i as int), pfs@[i as int], pred);
            }
            if pf.data.process_id == e.id {
                match fees.index_of_id(pf.data.fee_id) {
                    Some(j) => {
                        let fee = fees.get(j);
                        out.push(
                            ProcessFees {
                                process_fee_pid: pf.pid,
                                fee_pid: fee.pid,
                                fee_name: fee.data.fee.clone(),
                                type_or_info: copy_text(&fee.data.fee_type),
                            },
                        );
                        proof {
                            lemma_map_push(pfs@.take(i as int).filter(pred), pfs@[i as int], f);
                        }
                    },
                    None => {},
                }
            }
            i = i + 1;
        }
        assert(pfs@.take(pfs@.len() as int) =~= pfs@);
        ProcessView { pid: e.pid, case_type: e.data.case_type.clone(), fees: out }
    }

    /// The views of all processes of the table, in order.
    pub fn from_model(t: &Table<Process>, pfs: &Table<ProcessFee>, fees: &Table<Fee>) -> (r: Vec<
        ProcessView,
    >)
        requires
            fees.wf(),
        ensures
            r@.len() == t@.len(),
            forall|i: int| 0 <= i < t@.len() ==> process_view_ok(#[trigger] r@[i], t@[i], *pfs, *fees),
    {
        let mut out: Vec<ProcessView> = Vec::new();
        let mut i: usize = 0;
        while i < t.len()
            invariant
                fees.wf(),
                i <= t@.len(),
                out@.len() == i,
                forall|j: int| 0 <= j < i ==> process_view_ok(#[trigger] out@[j], t@[j], *pfs, *fees),
            decreases t@.len() - i,
        {
            out.push(ProcessView::from(t.get(i), pfs, fees));
            i = i + 1;
        }
        out
    }

    /// The views of all processes of the store, in order, with their linked fees.
    pub fn find_all(store: &Store) -> (r: Vec<ProcessView>)
        requires
            store.wf(),
        ensures
            r@.len() == store.processes@.len(),
            forall|i: int|
                0 <= i < r@.len() ==> process_view_ok(
                    #[trigger] r@[i],
                    store.processes@[i],
                    store.processes_fees,
                    store.fees,
                ),
    {
        ProcessView::from_model(&store.processes, &store.processes_fees, &store.fees)
    }
}

} // verus!
