use vstd::prelude::*;

use crate::keyed_sort::{key_of, sort_by_text_key, stably_sorted, TextKey, TextKeyed};
use crate::readiness::{join, lemma_join_push, PublishOrderFinding};
use crate::text::{push_str, str_eq, views};

verus! {

broadcast use vstd::string::group_string_axioms;

/// A dependency edge of the workspace, with the configured ids of its two
/// ends (`None` where a package has no configured id).
pub struct OrderEdge {
    pub from_id: Option<String>,
    pub to_id: Option<String>,
    pub dependency_kind: String,
    pub source_field: Option<String>,
}

/// A dependency that the publish order puts after its dependent.
pub struct OrderViolation {
    pub from_id: String,
    pub to_id: String,
    pub dependency_kind: String,
    pub source_field: Option<String>,
}

impl TextKeyed for OrderViolation {
    open spec fn text_key(&self) -> TextKey {
        (self.from_id@, self.to_id@)
    }

    fn primary_text(&self) -> (r: &str) {
        self.from_id.as_str()
    }

    fn secondary_text(&self) -> (r: &str) {
        self.to_id.as_str()
    }
}

/// The position of `id` in the publish order (of several, the last), if it is there.
pub open spec fn position_in(order: Seq<String>, id: Seq<char>) -> Option<int>
    decreases order.len(),
{
    if order.len() == 0 {
        None
    } else if order.last()@ == id {
        Some(order.len() - 1)
    } else {
        position_in(order.drop_last(), id)
    }
}

/// The violation an edge makes: both ends have configured ids, both publish,
/// and the dependency publishes after its dependent.
pub open spec fn edge_violation(order: Seq<String>, e: OrderEdge) -> Option<OrderViolation> {
    match (e.from_id, e.to_id) {
        (Some(from), Some(to)) => match (position_in(order, from@), position_in(order, to@)) {
            (Some(fp), Some(tp)) => if tp > fp {
                Some(OrderViolation { from_id: from, to_id: to, dependency_kind: e.dependency_kind, source_field: e.source_field })
            } else {
                None
            },
            _ => None,
        },
        _ => None,
    }
}

/// The violations of the edges, in edge order.
pub open spec fn order_violations(order: Seq<String>, edges: Seq<OrderEdge>) -> Seq<OrderViolation>
    decreases edges.len(),
{
    if edges.len() == 0 {
        seq![]
    } else {
        let rest = order_violations(order, edges.drop_last());
        match edge_violation(order, edges.last()) {
            Some(v) => rest.push(v),
            None => rest,
        }
    }
}

/// The message of a finding about a violation.
pub open spec fn violation_message(v: OrderViolation) -> Seq<char> {
    "publishes before its dependency `"@ + v.to_id@ + "` ("@ + v.dependency_kind@ + ", "@
        + match v.source_field {
        Some(f) => f@,
        None => "unknown field"@,
    } + ") even though the publish plan should order dependencies first"@
}

/// The entries of the release record's order that publish, in record order.
pub open spec fn published_record_ids(record: Seq<String>, order: Seq<String>) -> Seq<Seq<char>>
    decreases record.len(),
{
    if record.len() == 0 {
        seq![]
    } else {
        let rest = published_record_ids(record.drop_last(), order);
        if position_in(order, record.last()@) is Some {
            rest.push(record.last()@)
        } else {
            rest
        }
    }
}

/// The message of the finding that the release record orders packages otherwise.
pub open spec fn record_order_message(record_ids: Seq<Seq<char>>, order: Seq<Seq<char>>) -> Seq<char> {
    "release record publication order ("@ + join(record_ids, ", "@) + ") differs from the dependency-corrected publish order ("@
        + join(order, ", "@) + "); publishing follows the dependency-corrected order"@
}

fn position_of(order: &[String], id: &str) -> (r: Option<usize>)
    ensures
        match r {
            Some(p) => position_in(order@, id@) == Some(p as int),
            None => position_in(order@, id@) is None,
        },
{
    let mut found: Option<usize> = None;
    let mut j: usize = 0;
    while j < order.len()
        invariant
            j <= order@.len(),
            match found {
                Some(p) => position_in(order@.take(j as int), id@) == Some(p as int),
                None => position_in(order@.take(j as int), id@) is None,
            },
        decreases order@.len() - j,
    {
        proof {
            assert(order@.take(j + 1).drop_last() =~= order@.take(j as int));
            assert(order@.take(j + 1).last() == order@[j as int]);
        }
        if str_eq(order[j].as_str(), id) {
            found = Some(j);
        }
        j = j + 1;
    }
    assert(order@.take(order@.len() as int) =~= order@);
    found
}

fn violation_of(order: &[String], e: &OrderEdge) -> (r: Option<OrderViolation>)
    ensures
        r == edge_violation(order@, *e),
{
    match (&e.from_id, &e.to_id) {
        (Some(from), Some(to)) => match (position_of(order, from.as_str()), position_of(order, to.as_str())) {
            (Some(fp), Some(tp)) => if tp > fp {
                let field = match &e.source_field {
                    Some(f) => Some(f.clone()),
                    None => None,
                };
                Some(OrderViolation {
                    from_id: from.clone(),
                    to_id: to.clone(),
                    dependency_kind: e.dependency_kind.clone(),
                    source_field: field,
                })
            } else {
                None
            },
            _ => None,
        },
        _ => None,
    }
}

fn violation_message_of(v: &OrderViolation) -> (r: String)
    ensures
        r@ == violation_message(*v),
{
    let mut m = String::new();
    push_str(&mut m, "publishes before its dependency `");
    push_str(&mut m, v.to_id.as_str());
    push_str(&mut m, "` (");
    push_str(&mut m, v.dependency_kind.as_str());
    push_str(&mut m, ", ");
    match &v.source_field {
        Some(f) => push_str(&mut m, f.as_str()),
        None => push_str(&mut m, "unknown field"),
    }
    push_str(&mut m, ") even though the publish plan should order dependencies first");
    m
}

/// The entries joined by `sep`.
pub fn join_strings(v: &[String], sep: &str) -> (r: String)
    ensures
        r@ == join(views(v@), sep@),
{
    let mut out = String::new();
    let mut i: usize = 0;
    while i < v.len()
        invariant
            i <= v@.len(),
            out@ == join(views(v@.take(i as int)), sep@),
        decreases v@.len() - i,
    {
        proof {
            lemma_join_push(views(v@.take(i as int)), v@[i as int]@, sep@);
            assert(views(v@.take(i + 1)) =~= views(v@.take(i as int)).push(v@[i as int]@));
        }
        if i > 0 {
            push_str(&mut out, sep);
        }
        push_str(&mut out, v[i].as_str());
        i = i + 1;
    }
    assert(v@.take(v@.len() as int) =~= v@);
    out
}

fn same_texts(a: &[String], b: &[String]) -> (r: bool)
    ensures
        r == (views(a@) == views(b@)),
{
    if a.len() != b.len() {
        assert(views(a@).len() != views(b@).len());
        return false;
    }
    let mut i: usize = 0;
    while i < a.len()
        invariant
            i <= a@.len(),
            a@.len() == b@.len(),
            forall|j: int| 0 <= j < i ==> (#[trigger] a@[j])@ == b@[j]@,
        decreases a@.len() - i,
    {
        if !str_eq(a[i].as_str(), b[i].as_str()) {
            assert(views(a@)[i as int] != views(b@)[i as int]);
            return false;
        }
        i = i + 1;
    }
    assert(views(a@) =~= views(b@));
    true
}

/// Checks the planned publish order against the workspace's dependency edges
/// and the release record's publication order.
///
/// Every edge whose dependency publishes after its dependent gives a blocking
/// finding about the dependent, ordered by dependent id and then dependency
/// id. When a release record order is given and its publishing entries
/// differ from the publish order, a final non-blocking finding says so.
pub fn publication_order_findings(
    publish_order: &[String],
    edges: &[OrderEdge],
    record_order: Option<&[String]>,
) -> (r: Vec<PublishOrderFinding>)
    ensures
        ({
            let vs = stably_sorted(key_of::<OrderViolation>(), order_violations(publish_order@, edges@));
            let note = match record_order {
                Some(rec) => published_record_ids(rec@, publish_order@) != views(publish_order@),
                None => false,
            };
            &&& r@.len() == vs.len() + (if note { 1int } else { 0int })
            &&& forall|i: int| 0 <= i < vs.len() ==> {
                &&& (#[trigger] r@[i]).blocking
                &&& r@[i].package == Some(vs[i].from_id)
                &&& r@[i].message@ == violation_message(vs[i])
            }
            &&& note ==> {
                let f = r@[vs.len() as int];
                &&& !f.blocking
                &&& f.package is None
                &&& f.message@ == record_order_message(
                    published_record_ids(record_order->0@, publish_order@),
                    views(publish_order@),
                )
            }
        }),
{
    let mut raw: Vec<OrderViolation> = Vec::new();
    let mut i: usize = 0;
    while i < edges.len()
        invariant
            i <= edges@.len(),
            raw@ == order_violations(publish_order@, edges@.take(i as int)),
        decreases edges@.len() - i,
    {
        proof {
            assert(edges@.take(i + 1).drop_last() =~= edges@.take(i as int));
            assert(edges@.take(i + 1).last() == edges@[i as int]);
        }
        match violation_of(publish_order, &edges[i]) {
            Some(v) => raw.push(v),
            None => {},
        }
        i = i + 1;
    }
    assert(edges@.take(edges@.len() as int) =~= edges@);
    let sorted = sort_by_text_key(raw);
    let mut findings: Vec<PublishOrderFinding> = Vec::new();
    let mut k: usize = 0;
    while k < sorted.len()
        invariant
            k <= sorted@.len(),
            findings@.len() == k,
            forall|j: int| 0 <= j < k ==> {
                &&& (#[trigger] findings@[j]).blocking
                &&& findings@[j].package == Some(sorted@[j].from_id)
                &&& findings@[j].message@ == violation_message(sorted@[j])
            },
        decreases sorted@.len() - k,
    {
        let v = &sorted[k];
        findings.push(PublishOrderFinding {
            package: Some(v.from_id.clone()),
            message: violation_message_of(v),
            blocking: true,
        });
        k = k + 1;
    }
    if let Some(record) = record_order {
        let mut record_ids: Vec<String> = Vec::new();
        let mut j: usize = 0;
        while j < record.len()
            invariant
                j <= record@.len(),
                views(record_ids@) == published_record_ids(record@.take(j as int), publish_order@),
            decreases record@.len() - j,
        {
            proof {
                assert(record@.take(j + 1).drop_last() =~= record@.take(j as int));
                assert(record@.take(j + 1).last() == record@[j as int]);
            }
            let ghost before = record_ids@;
            if position_of(publish_order, record[j].as_str()).is_some() {
                record_ids.push(record[j].clone());
                assert(views(record_ids@) =~= views(before).push(record@[j as int]@));
            }
            j = j + 1;
        }
        assert(record@.take(record@.len() as int) =~= record@);
        if !same_texts(record_ids.as_slice(), publish_order) {
            let mut m = String::new();
            push_str(&mut m, "release record publication order (");
            let joined_record = join_strings(record_ids.as_slice(), ", ");
            push_str(&mut m, joined_record.as_str());
            push_str(&mut m, ") differs from the dependency-corrected publish order (");
            let joined_order = join_strings(publish_order, ", ");
            push_str(&mut m, joined_order.as_str());
            push_str(&mut m, "); publishing follows the dependency-corrected order");
            findings.push(PublishOrderFinding { package: None, message: m, blocking: false });
        }
    }
    findings
}

} // verus!
