//! The outcome of an operation, as reported to the user.
use vstd::prelude::*;
use crate::text::{decimal, decimal_string, owned};
use crate::tree::CertificateRecord;
use crate::model::Failure;
use crate::order::{is_permutation, key_less, sort_by_keys, sorted_stably};

verus! {

/// One OpenSSL run: its arguments, exit status and captured output.
#[derive(Debug)]
pub struct CommandReport {
    pub argv: Vec<String>,
    pub success: bool,
    pub code: Option<i32>,
    pub stdout: String,
    pub stderr: String,
    pub stdout_bytes: usize,
    pub stderr_bytes: usize,
}

/// The report of an operation.
#[derive(Debug)]
pub struct Report {
    pub schema_version: u8,
    pub ok: bool,
    pub code: u8,
    pub error: Option<String>,
    pub message: String,
    pub dry_run: bool,
    pub paths: Vec<String>,
    pub commands: Vec<CommandReport>,
    pub planned_commands: Vec<Vec<String>>,
    pub planned_artifacts: Vec<String>,
    pub certificates: Option<Vec<CertificateRecord>>,
}

/// A successful report of schema version 1 with a message, no error, no commands and no
/// certificates.
pub open spec fn success_report(r: Report, message: Seq<char>, dry_run: bool) -> bool {
    &&& r.schema_version == 1
    &&& r.ok
    &&& r.code == 0
    &&& r.error is None
    &&& r.message@ == message
    &&& r.dry_run == dry_run
    &&& r.commands@.len() == 0
    &&& r.certificates is None
}

/// A successful report with nothing listed.
pub fn success(message: &str, dry_run: bool) -> (r: Report)
    ensures
        success_report(r, message@, dry_run),
        r.paths@.len() == 0,
        r.planned_commands@.len() == 0,
        r.planned_artifacts@.len() == 0,
{
    Report {
        schema_version: 1,
        ok: true,
        code: 0,
        error: None,
        message: owned(message),
        dry_run,
        paths: Vec::new(),
        commands: Vec::new(),
        planned_commands: Vec::new(),
        planned_artifacts: Vec::new(),
        certificates: None,
    }
}

/// A successful report that names one path.
pub fn success_with_path(message: &str, dry_run: bool, path: String) -> (r: Report)
    ensures
        success_report(r, message@, dry_run),
        r.paths.deep_view() == seq![path@],
        r.planned_commands@.len() == 0,
        r.planned_artifacts@.len() == 0,
{
    let mut report = success(message, dry_run);
    report.paths.push(path);
    assert(report.paths.deep_view() =~= seq![path@]);
    report
}

/// The order of list records: by subject, then by path.
pub open spec fn record_key(r: CertificateRecord) -> Seq<Seq<char>> {
    seq![r.subject@, r.path@]
}

fn record_less(a: &CertificateRecord, b: &CertificateRecord) -> (r: bool)
    ensures
        r == key_less(record_key(*a), record_key(*b)),
{
    let ka = vec![a.subject.clone(), a.path.clone()];
    let kb = vec![b.subject.clone(), b.path.clone()];
    assert(ka.deep_view() =~= record_key(*a));
    assert(kb.deep_view() =~= record_key(*b));
    crate::order::keys_less(&ka, &kb)
}

/// `order` lists the positions of `records` that make up `sorted`, each once, so that the
/// records come by subject and then path, records with equal subject and path keeping
/// their order.
pub open spec fn stably_sorted(records: Seq<CertificateRecord>, sorted: Seq<CertificateRecord>, order: Seq<int>) -> bool {
    &&& order.len() == sorted.len() == records.len()
    &&& forall|i: int| 0 <= i < order.len() ==> 0 <= #[trigger] order[i] < records.len()
    &&& forall|i: int, j: int| 0 <= i < j < order.len() ==> order[i] != order[j]
    &&& forall|i: int| 0 <= i < sorted.len() ==> #[trigger] sorted[i] == records[order[i]]
    &&& forall|i: int, j: int|
        #![trigger sorted[i], sorted[j]]
        0 <= i < j < sorted.len() ==> !key_less(record_key(sorted[j]), record_key(sorted[i])) && (
        record_key(sorted[i]) == record_key(sorted[j]) ==> order[i] < order[j])
}

/// The records arranged by subject and then path; records with equal subject and path keep
/// their order. None is lost or repeated.
pub fn sort_records(records: Vec<CertificateRecord>) -> (r: Vec<CertificateRecord>)
    ensures
        r@.to_multiset() == records@.to_multiset(),
        exists|order: Seq<int>| stably_sorted(records@, r@, order),
{
    broadcast use vstd::seq_lib::group_to_multiset_ensures;
    let ghost all = records@.to_multiset();
    let ghost input = records@;
    let mut rest = records;
    let mut sorted: Vec<CertificateRecord> = Vec::new();
    let ghost mut order: Seq<int> = Seq::empty();
    let mut taken: usize = 0;
    let total = rest.len();
    assert(input.skip(0) =~= input);
    while rest.len() > 0
        invariant
            total == input.len(),
            sorted@.to_multiset().add(rest@.to_multiset()) == all,
            taken <= input.len(),
            rest@ == input.skip(taken as int),
            order.len() == sorted@.len() == taken,
            forall|i: int| 0 <= i < order.len() ==> 0 <= #[trigger] order[i] < taken,
            forall|i: int, j: int| 0 <= i < j < order.len() ==> order[i] != order[j],
            forall|i: int| 0 <= i < sorted@.len() ==> #[trigger] sorted@[i] == input[order[i]],
            forall|i: int, j: int|
                #![trigger sorted@[i], sorted@[j]]
                0 <= i < j < sorted@.len() ==> !key_less(record_key(sorted@[j]), record_key(sorted@[i]))
                    && (record_key(sorted@[i]) == record_key(sorted@[j]) ==> order[i] < order[j]),
        decreases rest.len(),
    {
        let ghost rest_before = rest@;
        assert(taken < total);
        let x = rest.remove(0);
        proof {
            vstd::seq_lib::to_multiset_remove(rest_before, 0);
            assert(rest@ =~= input.skip(taken + 1));
        }
        let mut pos: usize = 0;
        while pos < sorted.len() && !record_less(&x, &sorted[pos])
            invariant
                pos <= sorted@.len(),
                forall|a: int| 0 <= a < pos ==> !key_less(record_key(x), record_key(#[trigger] sorted@[a])),
            decreases sorted.len() - pos,
        {
            pos = pos + 1;
        }
        let ghost old_sorted = sorted@;
        let ghost old_order = order;
        let ghost kx = record_key(x);
        proof {
            if pos < old_sorted.len() {
                assert(key_less(kx, record_key(old_sorted[pos as int])));
            }
        }
        sorted.insert(pos, x);
        proof {
            order = old_order.insert(pos as int, taken as int);
            vstd::seq_lib::to_multiset_insert(old_sorted, pos as int, x);
            let o = sorted@;
            assert forall|i: int| 0 <= i < o.len() implies #[trigger] o[i] == input[order[i]] by {
                if i < pos {
                    assert(o[i] == old_sorted[i]);
                } else if i > pos {
                    assert(o[i] == old_sorted[i - 1]);
                } else {
                    assert(x == rest_before[0]);
                    assert(rest_before[0] == input[taken as int]);
                }
            }
            assert forall|i: int, j: int| 0 <= i < j < order.len() implies order[i] != order[j] by {
                if i != pos && j != pos {
                    let a = if i < pos { i } else { i - 1 };
                    let b = if j < pos { j } else { j - 1 };
                    assert(order[i] == old_order[a] && order[j] == old_order[b]);
                } else if i == pos {
                    assert(order[j] == old_order[j - 1]);
                } else {
                    assert(order[i] == old_order[i]);
                }
            }
            assert forall|i: int, j: int|
                #![trigger o[i], o[j]]
                0 <= i < j < o.len() implies !key_less(record_key(o[j]), record_key(o[i])) && (
                record_key(o[i]) == record_key(o[j]) ==> order[i] < order[j]) by {
                if i < pos && j < pos {
                    assert(o[i] == old_sorted[i] && o[j] == old_sorted[j]);
                    assert(order[i] == old_order[i] && order[j] == old_order[j]);
                } else if i > pos && j > pos {
                    assert(o[i] == old_sorted[i - 1] && o[j] == old_sorted[j - 1]);
                    assert(order[i] == old_order[i - 1] && order[j] == old_order[j - 1]);
                } else if i < pos && j > pos {
                    assert(o[i] == old_sorted[i] && o[j] == old_sorted[j - 1]);
                    assert(order[i] == old_order[i] && order[j] == old_order[j - 1]);
                } else if i == pos {
                    assert(o[j] == old_sorted[j - 1]);
                    assert(o[i] == x);
                    let y = record_key(old_sorted[pos as int]);
                    let z = record_key(o[j]);
                    if j - 1 > pos {
                        assert(!key_less(z, y));
                    } else {
                        crate::order::lemma_key_less_irreflexive(y);
                    }
                    if key_less(z, kx) {
                        crate::order::lemma_key_less_transitive(z, kx, y);
                    }
                    if kx == z {
                        crate::order::lemma_key_less_total(y, z);
                        if key_less(y, z) {
                            crate::order::lemma_key_less_transitive(kx, y, z);
                        }
                        crate::order::lemma_key_less_irreflexive(z);
                    }
                } else {
                    assert(o[i] == old_sorted[i]);
                    assert(o[j] == x);
                    assert(order[i] == old_order[i]);
                    assert(order[j] == taken);
                }
            }
            broadcast use vstd::multiset::group_multiset_axioms;
            assert(x == rest_before[0]);
            assert(rest_before.to_multiset().count(x) > 0) by {
                vstd::seq_lib::to_multiset_contains(rest_before, x);
            }
            assert(sorted@.to_multiset().add(rest@.to_multiset()) =~= all);
        }
        taken = taken + 1;
    }
    proof {
        assert(rest@ =~= Seq::<CertificateRecord>::empty());
        assert(sorted@.to_multiset() =~= all);
        assert(stably_sorted(input, sorted@, order));
    }
    sorted
}

/// The report of the list operation: the records by subject and path, counted in the message.
pub fn list_certificates(records: Vec<CertificateRecord>) -> (r: Report)
    ensures
        r.schema_version == 1 && r.ok && r.code == 0 && r.error is None && r.dry_run,
        r.message@ == "listed "@ + decimal(records@.len() as nat) + " certificate(s)"@,
        r.commands@.len() == 0,
        r.paths@.len() == 0 && r.planned_commands@.len() == 0 && r.planned_artifacts@.len() == 0,
        r.certificates matches Some(c) && c@.to_multiset() == records@.to_multiset() && exists|
            order: Seq<int>,
        | stably_sorted(records@, c@, order),
{
    let n = records.len();
    let sorted = sort_records(records);
    let mut message = owned("listed ");
    let count = decimal_string(n as u64);
    message.append(count.as_str());
    message.append(" certificate(s)");
    let mut report = success(message.as_str(), true);
    report.certificates = Some(sorted);
    report
}


/// The report of a failed operation: the failure's code and message, with the OpenSSL runs
/// made before it.
pub fn failure_report(failure: Failure, commands: Vec<CommandReport>) -> (r: Report)
    ensures
        r.schema_version == 1 && !r.ok && r.code == failure.0 && r.dry_run,
        r.error matches Some(e) && e@ == failure.1@,
        r.message@ == "operation failed"@,
        r.commands@ == commands@,
        r.paths@.len() == 0 && r.planned_commands@.len() == 0 && r.planned_artifacts@.len() == 0,
        r.certificates is None,
{
    Report {
        schema_version: 1,
        ok: false,
        code: failure.0,
        error: Some(failure.1),
        message: owned("operation failed"),
        dry_run: true,
        paths: Vec::new(),
        commands,
        planned_commands: Vec::new(),
        planned_artifacts: Vec::new(),
        certificates: None,
    }
}


/// The sort keys of listed file paths: each path alone.
pub open spec fn path_keys(paths: Seq<Seq<char>>) -> Seq<Seq<Seq<char>>> {
    paths.map_values(|p: Seq<char>| seq![p])
}

/// The order in which a listing visits certificate files: by path text, each path once.
pub fn inspection_order(paths: &Vec<String>) -> (r: Vec<String>)
    ensures
        exists|order: Seq<usize>|
            is_permutation(order, paths@.len() as nat) && sorted_stably(order, path_keys(paths.deep_view()))
                && r.deep_view() == order.map_values(|k: usize| paths.deep_view()[k as int]),
{
    let mut keys: Vec<Vec<String>> = Vec::new();
    let mut i: usize = 0;
    while i < paths.len()
        invariant
            i <= paths@.len(),
            keys.deep_view() == path_keys(paths.deep_view()).take(i as int),
        decreases paths.len() - i,
    {
        let key = vec![paths[i].clone()];
        assert(key.deep_view() =~= seq![paths.deep_view()[i as int]]);
        let ghost before = keys.deep_view();
        keys.push(key);
        assert(keys.deep_view() =~= before.push(seq![paths.deep_view()[i as int]]));
        assert(path_keys(paths.deep_view()).take(i + 1) =~= path_keys(paths.deep_view()).take(
            i as int,
        ).push(path_keys(paths.deep_view())[i as int]));
        i = i + 1;
    }
    assert(keys.deep_view() =~= path_keys(paths.deep_view()));
    let order = sort_by_keys(&keys);
    let mut r: Vec<String> = Vec::new();
    let mut j: usize = 0;
    while j < order.len()
        invariant
            j <= order@.len(),
            is_permutation(order@, paths@.len() as nat),
            r.deep_view() == order@.take(j as int).map_values(|k: usize| paths.deep_view()[k as int]),
        decreases order.len() - j,
    {
        let k = order[j];
        let ghost before = r.deep_view();
        r.push(paths[k].clone());
        assert(r.deep_view() =~= before.push(paths.deep_view()[k as int]));
        assert(order@.take(j + 1).map_values(|k: usize| paths.deep_view()[k as int]) =~= order@.take(
            j as int,
        ).map_values(|k: usize| paths.deep_view()[k as int]).push(paths.deep_view()[k as int]));
        j = j + 1;
    }
    assert(order@.take(j as int) =~= order@);
    r
}

} // verus!
