use vstd::prelude::*;

use crate::error::MonochangeError;
use crate::text::{contains, push_str, str_eq, views};
use crate::versioned::{
    field_path_segments, path_segments, render_versioned_template, rendered_template, segments_error,
    update_format_error_action, MissingFieldBehavior,
};

verus! {

broadcast use vstd::string::group_string_axioms;

/// A key of a mapping in a structured document: text, or a key of another
/// kind (kept by number so that the document can be rebuilt).
pub enum FieldKey {
    Text(String),
    Other(usize),
}

/// One value of a structured document (JSON, YAML or TOML) as far as field paths
/// reach into it: a mapping whose entries name the values they hold by their
/// place in the document, text, or a value of another kind (kept by number so
/// that the document can be rebuilt).
pub enum FieldNode {
    Mapping(Vec<(FieldKey, usize)>),
    Text(String),
    Other(usize),
}

/// A structured document: its values, the root first.
pub struct FieldDoc {
    pub nodes: Vec<FieldNode>,
}

/// A key as a mathematical value.
pub enum KeyView {
    Text(Seq<char>),
    Other(usize),
}

/// A value as a mathematical value.
pub enum NodeView {
    Mapping(Seq<(KeyView, usize)>),
    Text(Seq<char>),
    Other(usize),
}

pub open spec fn key_view(k: FieldKey) -> KeyView {
    match k {
        FieldKey::Text(t) => KeyView::Text(t@),
        FieldKey::Other(n) => KeyView::Other(n),
    }
}

pub open spec fn node_view(n: FieldNode) -> NodeView {
    match n {
        FieldNode::Mapping(es) => NodeView::Mapping(es@.map_values(|e: (FieldKey, usize)| (key_view(e.0), e.1))),
        FieldNode::Text(t) => NodeView::Text(t@),
        FieldNode::Other(x) => NodeView::Other(x),
    }
}

impl View for FieldDoc {
    type V = Seq<NodeView>;

    open spec fn view(&self) -> Seq<NodeView> {
        self.nodes@.map_values(|n: FieldNode| node_view(n))
    }
}

/// Why a field path could not be set: the index of the segment concerned.
#[derive(Clone, Copy, Debug, PartialEq, Eq, Structural)]
pub enum PathFailure {
    /// The path has no segments.
    NoSegments,
    /// The value reached before this segment is not a mapping.
    NotMapSegment(usize),
    /// The mapping reached has no entry for this segment.
    MissingSegment(usize),
    /// The value that should hold the last segment is not a mapping.
    NotMapLeaf(usize),
    /// The mapping reached has no entry for the last segment.
    MissingLeaf(usize),
}

/// The index of the first entry whose key is the text `seg`, from `from` on.
pub open spec fn key_index(es: Seq<(KeyView, usize)>, seg: Seq<char>, from: int) -> Option<int>
    decreases es.len() - from,
{
    if from < 0 || from >= es.len() {
        None
    } else if es[from].0 == KeyView::Text(seg) {
        Some(from)
    } else {
        key_index(es, seg, from + 1)
    }
}

/// The document with the field at `segs` (from segment `i` on, starting at
/// the value at `cursor`) set to the text `version`, or why that fails.
/// Setting a field appends the new text as a value and points the entry at
/// it. Without `add` every segment must exist. With `add` a missing mapping
/// is appended on the way, and a missing last entry is appended; entries that
/// exist keep their places. With `eager`, a segment whose value is not a
/// mapping fails at that segment (as TOML tables are walked); otherwise the
/// failure comes at the next segment, which cannot be looked up.
pub open spec fn set_path(doc: Seq<NodeView>, cursor: int, segs: Seq<Seq<char>>, i: int, version: Seq<char>, add: bool, eager: bool) -> Result<Seq<NodeView>, PathFailure>
    decreases segs.len() - i,
{
    if i < 0 || i >= segs.len() {
        Err(PathFailure::NoSegments)
    } else if !(0 <= cursor < doc.len() && doc[cursor] is Mapping) {
        if i == segs.len() - 1 {
            Err(PathFailure::NotMapLeaf(i as usize))
        } else {
            Err(PathFailure::NotMapSegment(i as usize))
        }
    } else {
        let es = doc[cursor]->Mapping_0;
        let n = doc.len() as usize;
        if i == segs.len() - 1 {
            match key_index(es, segs[i], 0) {
                Some(j) => Ok(doc.update(cursor, NodeView::Mapping(es.update(j, (es[j].0, n)))).push(NodeView::Text(version))),
                None => if add {
                    Ok(doc.update(cursor, NodeView::Mapping(es.push((KeyView::Text(segs[i]), n)))).push(NodeView::Text(version)))
                } else {
                    Err(PathFailure::MissingLeaf(i as usize))
                },
            }
        } else {
            match key_index(es, segs[i], 0) {
                Some(j) => if eager && !(es[j].1 < doc.len() && doc[es[j].1 as int] is Mapping) {
                    Err(PathFailure::NotMapSegment(i as usize))
                } else {
                    set_path(doc, es[j].1 as int, segs, i + 1, version, add, eager)
                },
                None => if add {
                    set_path(
                        doc.update(cursor, NodeView::Mapping(es.push((KeyView::Text(segs[i]), n)))).push(NodeView::Mapping(seq![])),
                        n as int,
                        segs,
                        i + 1,
                        version,
                        add,
                        eager,
                    )
                } else {
                    Err(PathFailure::MissingSegment(i as usize))
                },
            }
        }
    }
}

proof fn lemma_key_index_range(es: Seq<(KeyView, usize)>, seg: Seq<char>, from: int)
    ensures
        key_index(es, seg, from) matches Some(j) ==> from <= j < es.len() && es[j].0 == KeyView::Text(seg),
    decreases es.len() - from,
{
    if 0 <= from < es.len() && es[from].0 != KeyView::Text(seg) {
        lemma_key_index_range(es, seg, from + 1);
    }
}

fn find_key(es: &Vec<(FieldKey, usize)>, seg: &str) -> (r: Option<usize>)
    ensures
        match key_index(entry_views(es@), seg@, 0) {
            Some(j) => r matches Some(x) && x as int == j && j < es@.len(),
            None => r is None,
        },
{
    let ghost vs = entry_views(es@);
    proof {
        lemma_key_index_range(vs, seg@, 0);
    }
    let mut i: usize = es.len();
    let mut found: Option<usize> = None;
    // Scan backwards so that the first match is the one kept.
    while i > 0
        invariant
            i <= es@.len(),
            vs == entry_views(es@),
            match found {
                Some(j) => j >= i && j < es@.len() && key_index(vs, seg@, i as int) == Some(j as int),
                None => key_index(vs, seg@, i as int) is None,
            },
        decreases i,
    {
        i = i - 1;
        let hit = match &es[i].0 {
            FieldKey::Text(t) => str_eq(t.as_str(), seg),
            FieldKey::Other(_) => false,
        };
        assert(vs[i as int] == (key_view(es@[i as int].0), es@[i as int].1));
        if hit {
            found = Some(i);
        }
    }
    found
}

/// A copy of the entries of the mapping at `cursor`, if the value there is one.
fn map_entries(doc: &FieldDoc, cursor: usize) -> (r: Option<Vec<(FieldKey, usize)>>)
    ensures
        match r {
            Some(es) => cursor < doc@.len() && doc@[cursor as int] is Mapping
                && doc@[cursor as int]->Mapping_0 == entry_views(es@),
            None => !(cursor < doc@.len() && doc@[cursor as int] is Mapping),
        },
{
    if cursor >= doc.nodes.len() {
        return None;
    }
    match &doc.nodes[cursor] {
        FieldNode::Mapping(es) => {
            let mut out: Vec<(FieldKey, usize)> = Vec::new();
            let mut i: usize = 0;
            while i < es.len()
                invariant
                    i <= es@.len(),
                    entry_views(out@) == entry_views(es@.take(i as int)),
                decreases es@.len() - i,
            {
                let key = match &es[i].0 {
                    FieldKey::Text(t) => FieldKey::Text(t.clone()),
                    FieldKey::Other(n) => FieldKey::Other(*n),
                };
                assert(key_view(key) == key_view(es@[i as int].0));
                let ghost before = out@;
                out.push((key, es[i].1));
                proof {
                    assert(es@.take(i + 1) =~= es@.take(i as int).push(es@[i as int]));
                    assert(entry_views(out@) =~= entry_views(before).push((key_view(es@[i as int].0), es@[i as int].1)));
                    assert(entry_views(es@.take(i + 1)) =~= entry_views(es@.take(i as int)).push((key_view(es@[i as int].0), es@[i as int].1)));
                }
                i = i + 1;
            }
            assert(es@.take(es@.len() as int) =~= es@);
            assert(doc@[cursor as int] == node_view(doc.nodes@[cursor as int]));
            Some(out)
        },
        _ => {
            assert(doc@[cursor as int] == node_view(doc.nodes@[cursor as int]));
            None
        },
    }
}

/// Whether the value at `at` is a mapping.
fn is_mapping(doc: &FieldDoc, at: usize) -> (r: bool)
    ensures
        r == (at < doc@.len() && doc@[at as int] is Mapping),
{
    if at >= doc.nodes.len() {
        return false;
    }
    assert(doc@[at as int] == node_view(doc.nodes@[at as int]));
    match &doc.nodes[at] {
        FieldNode::Mapping(_) => true,
        _ => false,
    }
}

pub open spec fn entry_views(es: Seq<(FieldKey, usize)>) -> Seq<(KeyView, usize)> {
    es.map_values(|e: (FieldKey, usize)| (key_view(e.0), e.1))
}

/// Sets the field at `segs` to the text `version` (see `set_path`). Without
/// `add`, a failure leaves the document as it was.
pub fn set_field_path(doc: &mut FieldDoc, segs: &Vec<String>, version: &str, add: bool, eager: bool) -> (r: Result<(), PathFailure>)
    ensures
        match set_path(old(doc)@, 0, views(segs@), 0, version@, add, eager) {
            Ok(d) => r is Ok && final(doc)@ == d,
            Err(f) => r == Err::<(), PathFailure>(f) && (!add ==> final(doc)@ == old(doc)@),
        },
{
    let ghost ss = views(segs@);
    let ghost goal = set_path(doc@, 0, ss, 0, version@, add, eager);
    if segs.len() == 0 {
        return Err(PathFailure::NoSegments);
    }
    let mut cursor: usize = 0;
    let mut i: usize = 0;
    loop
        invariant
            ss == views(segs@),
            ss.len() == segs@.len(),
            goal == set_path(old(doc)@, 0, ss, 0, version@, add, eager),
            0 <= i < segs@.len(),
            set_path(doc@, cursor as int, ss, i as int, version@, add, eager) == goal,
            !add ==> doc@ == old(doc)@,
        decreases segs@.len() - i,
    {
        let ghost d = doc@;
        assert(ss[i as int] == segs@[i as int]@);
        let entries = map_entries(doc, cursor);
        let last = i == segs.len() - 1;
        match entries {
            None => {
                assert(!(0 <= cursor < doc@.len() && doc@[cursor as int] is Mapping));
                assert(i < ss.len());
                if last {
                    assert(set_path(doc@, cursor as int, ss, i as int, version@, add, eager) == Err::<Seq<NodeView>, PathFailure>(PathFailure::NotMapLeaf(i)));
                    return Err(PathFailure::NotMapLeaf(i));
                } else {
                    return Err(PathFailure::NotMapSegment(i));
                }
            },
            Some(es) => {
                let ghost ev = entry_views(es@);
                let n = doc.nodes.len();
                let seg: &str = segs[i].as_str();
                assert(seg@ == ss[i as int]);
                let found = find_key(&es, seg);
                match found {
                    Some(j) => {
                        assert(key_index(ev, ss[i as int], 0) == Some(j as int));
                        assert(j < es@.len());
                        if last {
                            let mut es2 = es;
                            let key = match &es2[j].0 {
                                FieldKey::Text(t) => FieldKey::Text(t.clone()),
                                FieldKey::Other(x) => FieldKey::Other(*x),
                            };
                            es2.set(j, (key, n));
                            proof {
                                assert(entry_views(es2@) =~= ev.update(j as int, (ev[j as int].0, n)));
                            }
                            doc.nodes.set(cursor, FieldNode::Mapping(es2));
                            doc.nodes.push(FieldNode::Text(version.to_string()));
                            proof {
                                assert(doc@ =~= d.update(cursor as int, NodeView::Mapping(ev.update(j as int, (ev[j as int].0, n)))).push(NodeView::Text(version@)));
                            }
                            return Ok(());
                        } else {
                            let next = es[j].1;
                            assert(ev[j as int].1 == next);
                            if eager && !is_mapping(doc, next) {
                                return Err(PathFailure::NotMapSegment(i));
                            }
                            cursor = next;
                        }
                    },
                    None => {
                        if !add {
                            if last {
                                return Err(PathFailure::MissingLeaf(i));
                            } else {
                                return Err(PathFailure::MissingSegment(i));
                            }
                        }
                        let mut es2 = es;
                        es2.push((FieldKey::Text(segs[i].clone()), n));
                        proof {
                            assert(entry_views(es2@) =~= ev.push((KeyView::Text(ss[i as int]), n)));
                        }
                        doc.nodes.set(cursor, FieldNode::Mapping(es2));
                        if last {
                            doc.nodes.push(FieldNode::Text(version.to_string()));
                            proof {
                                assert(doc@ =~= d.update(cursor as int, NodeView::Mapping(ev.push((KeyView::Text(ss[i as int]), n)))).push(NodeView::Text(version@)));
                            }
                            return Ok(());
                        }
                        let empty: Vec<(FieldKey, usize)> = Vec::new();
                        proof {
                            assert(entry_views(empty@) =~= seq![]);
                        }
                        doc.nodes.push(FieldNode::Mapping(empty));
                        proof {
                            assert(doc@ =~= d.update(cursor as int, NodeView::Mapping(ev.push((KeyView::Text(ss[i as int]), n)))).push(NodeView::Mapping(seq![])));
                        }
                        cursor = n;
                    },
                }
            },
        }
        i = i + 1;
    }
}

/// Each entry of a mapping names a value that comes after the mapping in the
/// document (as when values are listed parent first).
pub open spec fn doc_ordered(doc: Seq<NodeView>) -> bool {
    forall|c: int, j: int|
        0 <= c < doc.len() && doc[c] is Mapping && 0 <= j < doc[c]->Mapping_0.len()
            ==> c < (#[trigger] doc[c]->Mapping_0[j]).1 < doc.len()
}

/// The value reached by following `segs` (from segment `i` on) from the value
/// at `cursor`, if every segment names an entry of a mapping.
pub open spec fn value_at(doc: Seq<NodeView>, cursor: int, segs: Seq<Seq<char>>, i: int) -> Option<NodeView>
    decreases segs.len() - i,
{
    if i < 0 || i > segs.len() || !(0 <= cursor < doc.len()) {
        None
    } else if i == segs.len() {
        Some(doc[cursor])
    } else if doc[cursor] is Mapping {
        let es = doc[cursor]->Mapping_0;
        match key_index(es, segs[i], 0) {
            Some(j) => value_at(doc, es[j].1 as int, segs, i + 1),
            None => None,
        }
    } else {
        None
    }
}

proof fn lemma_key_index_keys(a: Seq<(KeyView, usize)>, b: Seq<(KeyView, usize)>, seg: Seq<char>, from: int)
    requires
        a.len() == b.len(),
        forall|k: int| 0 <= k < a.len() ==> (#[trigger] a[k]).0 == b[k].0,
    ensures
        key_index(a, seg, from) == key_index(b, seg, from),
    decreases a.len() - from,
{
    if 0 <= from < a.len() {
        assert(a[from].0 == b[from].0);
        lemma_key_index_keys(a, b, seg, from + 1);
    }
}

proof fn lemma_key_index_push(es: Seq<(KeyView, usize)>, seg: Seq<char>, n: usize, from: int)
    requires
        0 <= from <= es.len(),
        key_index(es, seg, from) is None,
    ensures
        key_index(es.push((KeyView::Text(seg), n)), seg, from) == Some(es.len() as int),
    decreases es.len() - from,
{
    let es2 = es.push((KeyView::Text(seg), n));
    if from < es.len() {
        assert(es2[from] == es[from]);
        lemma_key_index_push(es, seg, n, from + 1);
    } else {
        assert(es2[from] == (KeyView::Text(seg), n));
    }
}

proof fn lemma_set_path_at(doc: Seq<NodeView>, cursor: int, segs: Seq<Seq<char>>, i: int, version: Seq<char>, add: bool, eager: bool)
    requires
        doc_ordered(doc),
        0 <= i,
        doc.len() + segs.len() - i <= usize::MAX,
    ensures
        set_path(doc, cursor, segs, i, version, add, eager) matches Ok(d) ==> {
            &&& doc_ordered(d)
            &&& value_at(d, cursor, segs, i) == Some(NodeView::Text(version))
            &&& doc.len() <= d.len()
            &&& forall|k: int| 0 <= k < cursor ==> d[k] == doc[k]
        },
    decreases segs.len() - i,
{
    if 0 <= i < segs.len() && 0 <= cursor < doc.len() && doc[cursor] is Mapping {
        let es = doc[cursor]->Mapping_0;
        let n = doc.len() as usize;
        lemma_key_index_range(es, segs[i], 0);
        if i == segs.len() - 1 {
            match key_index(es, segs[i], 0) {
                Some(j) => {
                    let es2 = es.update(j, (es[j].0, n));
                    let d = doc.update(cursor, NodeView::Mapping(es2)).push(NodeView::Text(version));
                    lemma_key_index_keys(es2, es, segs[i], 0);
                    assert(d[cursor] == NodeView::Mapping(es2));
                    assert(d.len() == n + 1 && d[n as int] == NodeView::Text(version));
                    assert(value_at(d, n as int, segs, i + 1) == Some(NodeView::Text(version)));
                    assert forall|c: int, k: int|
                        0 <= c < d.len() && d[c] is Mapping && 0 <= k < d[c]->Mapping_0.len()
                            implies c < (#[trigger] d[c]->Mapping_0[k]).1 < d.len() by {
                        if c != cursor {
                            assert(d[c] == doc[c]);
                            assert(doc[c]->Mapping_0[k] == d[c]->Mapping_0[k]);
                        } else if k != j {
                            assert(es[k] == es2[k]);
                        }
                    }
                },
                None => if add {
                    let es2 = es.push((KeyView::Text(segs[i]), n));
                    let d = doc.update(cursor, NodeView::Mapping(es2)).push(NodeView::Text(version));
                    lemma_key_index_push(es, segs[i], n, 0);
                    assert(d[cursor] == NodeView::Mapping(es2));
                    assert(d.len() == n + 1 && d[n as int] == NodeView::Text(version));
                    assert(value_at(d, n as int, segs, i + 1) == Some(NodeView::Text(version)));
                    assert forall|c: int, k: int|
                        0 <= c < d.len() && d[c] is Mapping && 0 <= k < d[c]->Mapping_0.len()
                            implies c < (#[trigger] d[c]->Mapping_0[k]).1 < d.len() by {
                        if c != cursor {
                            assert(d[c] == doc[c]);
                            assert(doc[c]->Mapping_0[k] == d[c]->Mapping_0[k]);
                        } else if k < es.len() {
                            assert(es[k] == es2[k]);
                        }
                    }
                },
            }
        } else {
            match key_index(es, segs[i], 0) {
                Some(j) => {
                    let next = es[j].1 as int;
                    assert(cursor < es[j].1);
                    lemma_set_path_at(doc, next, segs, i + 1, version, add, eager);
                },
                None => if add {
                    let es2 = es.push((KeyView::Text(segs[i]), n));
                    let doc1 = doc.update(cursor, NodeView::Mapping(es2)).push(NodeView::Mapping(seq![]));
                    lemma_key_index_push(es, segs[i], n, 0);
                    assert forall|c: int, k: int|
                        0 <= c < doc1.len() && doc1[c] is Mapping && 0 <= k < doc1[c]->Mapping_0.len()
                            implies c < (#[trigger] doc1[c]->Mapping_0[k]).1 < doc1.len() by {
                        if c == n {
                            assert(doc1[c]->Mapping_0.len() == 0);
                        } else if c != cursor {
                            assert(doc1[c] == doc[c]);
                            assert(doc[c]->Mapping_0[k] == doc1[c]->Mapping_0[k]);
                        } else if k < es.len() {
                            assert(es[k] == es2[k]);
                        }
                    }
                    lemma_set_path_at(doc1, n as int, segs, i + 1, version, add, eager);
                    assert(doc1[cursor] == NodeView::Mapping(es2));
                },
            }
        }
    }
}

/// Setting a field and then following its path from the root reaches the
/// text that was set, and the document stays ordered parent first (for a
/// document and path whose sizes together fit in a `usize`).
pub proof fn lemma_set_path_reads_back(doc: Seq<NodeView>, segs: Seq<Seq<char>>, version: Seq<char>, add: bool, eager: bool)
    requires
        doc_ordered(doc),
        doc.len() + segs.len() <= usize::MAX,
    ensures
        set_path(doc, 0, segs, 0, version, add, eager) matches Ok(d) ==> doc_ordered(d) && value_at(d, 0, segs, 0)
            == Some(NodeView::Text(version)),
{
    lemma_set_path_at(doc, 0, segs, 0, version, add, eager);
}

/// The message a failed field path gives; `container` names the kind of
/// value a path walks through (see `container_word`).
pub open spec fn failure_text(f: PathFailure, path: Seq<char>, segs: Seq<Seq<char>>, container: Seq<char>) -> Seq<char> {
    let head = "versioned_files field `"@ + path + "` "@;
    match f {
        PathFailure::NoSegments => segments_error(path),
        PathFailure::NotMapSegment(i) => head + "cannot traverse non-"@ + container + " segment `"@ + segs[i as int] + "`"@,
        PathFailure::MissingSegment(i) => head + "is missing segment `"@ + segs[i as int] + "`"@,
        PathFailure::NotMapLeaf(i) => head + "cannot set `"@ + segs[i as int] + "` on a non-"@ + container + " value"@,
        PathFailure::MissingLeaf(i) => head + "is missing leaf `"@ + segs[i as int] + "`"@,
    }
}

/// The failure names a segment of the path.
pub open spec fn failure_in_range(f: PathFailure, n: nat) -> bool {
    match f {
        PathFailure::NoSegments => true,
        PathFailure::NotMapSegment(i) => i < n,
        PathFailure::MissingSegment(i) => i < n,
        PathFailure::NotMapLeaf(i) => i < n,
        PathFailure::MissingLeaf(i) => i < n,
    }
}

proof fn lemma_failure_in_range(doc: Seq<NodeView>, cursor: int, segs: Seq<Seq<char>>, i: int, version: Seq<char>, add: bool, eager: bool)
    requires
        0 <= i,
    ensures
        set_path(doc, cursor, segs, i, version, add, eager) matches Err(f) ==> failure_in_range(f, segs.len()),
    decreases segs.len() - i,
{
    if 0 <= i < segs.len() && 0 <= cursor < doc.len() && doc[cursor] is Mapping && i != segs.len() - 1 {
        let es = doc[cursor]->Mapping_0;
        let n = doc.len() as usize;
        match key_index(es, segs[i], 0) {
            Some(j) => lemma_failure_in_range(doc, es[j].1 as int, segs, i + 1, version, add, eager),
            None => if add {
                lemma_failure_in_range(
                    doc.update(cursor, NodeView::Mapping(es.push((KeyView::Text(segs[i]), n)))).push(NodeView::Mapping(seq![])),
                    n as int, segs, i + 1, version, add, eager);
            },
        }
    }
}

fn failure_error(f: PathFailure, path: &str, segs: &Vec<String>, container: &str) -> (r: MonochangeError)
    requires
        failure_in_range(f, segs@.len()),
    ensures
        r matches MonochangeError::Config(m) && m@ == failure_text(f, path@, views(segs@), container@),
{
    let mut m = String::new();
    proof {
        reveal_strlit("versioned_files field `");
        reveal_strlit("` ");
        reveal_strlit("cannot traverse non-");
        reveal_strlit(" segment `");
        reveal_strlit("`");
        reveal_strlit("is missing segment `");
        reveal_strlit("cannot set `");
        reveal_strlit("` on a non-");
        reveal_strlit(" value");
        reveal_strlit("is missing leaf `");
        reveal_strlit("versioned_files field path `");
        reveal_strlit("` must contain non-empty dot-separated segments");
    }
    match f {
        PathFailure::NoSegments => {
            push_str(&mut m, "versioned_files field path `");
            push_str(&mut m, path);
            push_str(&mut m, "` must contain non-empty dot-separated segments");
        },
        PathFailure::NotMapSegment(i) => {
            push_str(&mut m, "versioned_files field `");
            push_str(&mut m, path);
            push_str(&mut m, "` ");
            push_str(&mut m, "cannot traverse non-");
            push_str(&mut m, container);
            push_str(&mut m, " segment `");
            push_str(&mut m, segs[i].as_str());
            push_str(&mut m, "`");
        },
        PathFailure::MissingSegment(i) => {
            push_str(&mut m, "versioned_files field `");
            push_str(&mut m, path);
            push_str(&mut m, "` ");
            push_str(&mut m, "is missing segment `");
            push_str(&mut m, segs[i].as_str());
            push_str(&mut m, "`");
        },
        PathFailure::NotMapLeaf(i) => {
            push_str(&mut m, "versioned_files field `");
            push_str(&mut m, path);
            push_str(&mut m, "` ");
            push_str(&mut m, "cannot set `");
            push_str(&mut m, segs[i].as_str());
            push_str(&mut m, "` on a non-");
            push_str(&mut m, container);
            push_str(&mut m, " value");
        },
        PathFailure::MissingLeaf(i) => {
            push_str(&mut m, "versioned_files field `");
            push_str(&mut m, path);
            push_str(&mut m, "` ");
            push_str(&mut m, "is missing leaf `");
            push_str(&mut m, segs[i].as_str());
            push_str(&mut m, "`");
        },
    }
    assert(m@ =~= failure_text(f, path@, views(segs@), container@));
    MonochangeError::Config(m)
}

/// The kind of structured document a field path walks.
#[derive(Clone, Copy, Debug, PartialEq, Eq, Structural)]
pub enum DocumentKind {
    Json,
    Yaml,
    Toml,
}

/// The word messages use for a value that holds entries.
pub open spec fn container_word(kind: DocumentKind) -> Seq<char> {
    match kind {
        DocumentKind::Json => "object"@,
        DocumentKind::Yaml => "mapping"@,
        DocumentKind::Toml => "table"@,
    }
}

/// TOML tables are checked as each segment reaches them.
pub open spec fn kind_eager(kind: DocumentKind) -> bool {
    kind == DocumentKind::Toml
}

fn container_name(kind: DocumentKind) -> (r: &'static str)
    ensures
        r@ == container_word(kind),
{
    match kind {
        DocumentKind::Json => "object",
        DocumentKind::Yaml => "mapping",
        DocumentKind::Toml => "table",
    }
}

/// The message text reports a missing field, a missing segment of its path,
/// or a key that was not found.
pub open spec fn missing_text(t: Seq<char>) -> bool {
    contains(t, " is missing leaf "@) || contains(t, " is missing segment "@) || contains(t, " was not found"@)
}

/// A segment of the path is empty.
pub open spec fn has_empty_segment(segs: Seq<Seq<char>>) -> bool {
    exists|i: int| 0 <= i < segs.len() && (#[trigger] segs[i]).len() == 0
}

/// One attempt to set the field at `path` to `version`, adding what is
/// missing when `add` holds: the new document, or the error message.
pub open spec fn path_attempt(doc: Seq<NodeView>, path: Seq<char>, version: Seq<char>, add: bool, kind: DocumentKind) -> Result<Seq<NodeView>, Seq<char>> {
    let segs = path_segments(path);
    if has_empty_segment(segs) {
        Err(segments_error(path))
    } else {
        match set_path(doc, 0, segs, 0, version, add, kind_eager(kind)) {
            Ok(d) => Ok(d),
            Err(f) => Err(failure_text(f, path, segs, container_word(kind))),
        }
    }
}

/// The document after one templated field is set to `version`: when the
/// plain update fails for want of a field, the field is added or left out as
/// `behavior` says; any other failure is the error with its message.
pub open spec fn field_applied(
    doc: Seq<NodeView>,
    field: Seq<char>,
    name: Seq<char>,
    version: Seq<char>,
    behavior: MissingFieldBehavior,
    kind: DocumentKind,
) -> Result<Seq<NodeView>, Seq<char>> {
    let path = rendered_template(field, name, version);
    match path_attempt(doc, path, version, false, kind) {
        Ok(d) => Ok(d),
        Err(t) => if !missing_text(t) {
            Err(t)
        } else if behavior == MissingFieldBehavior::Ignore {
            Ok(doc)
        } else {
            path_attempt(doc, path, version, true, kind)
        },
    }
}

/// The document after each templated field in turn is set to `version`, or
/// the first error.
pub open spec fn fields_applied(
    doc: Seq<NodeView>,
    fields: Seq<Seq<char>>,
    name: Seq<char>,
    version: Seq<char>,
    behavior: MissingFieldBehavior,
    kind: DocumentKind,
) -> Result<Seq<NodeView>, Seq<char>>
    decreases fields.len(),
{
    if fields.len() == 0 {
        Ok(doc)
    } else {
        match fields_applied(doc, fields.drop_last(), name, version, behavior, kind) {
            Ok(d) => field_applied(d, fields.last(), name, version, behavior, kind),
            Err(t) => Err(t),
        }
    }
}

proof fn lemma_error_persists(
    doc: Seq<NodeView>,
    fields: Seq<Seq<char>>,
    k: int,
    name: Seq<char>,
    version: Seq<char>,
    behavior: MissingFieldBehavior,
    kind: DocumentKind,
)
    requires
        0 <= k <= fields.len(),
        fields_applied(doc, fields.take(k), name, version, behavior, kind) is Err,
    ensures
        fields_applied(doc, fields, name, version, behavior, kind)
            == fields_applied(doc, fields.take(k), name, version, behavior, kind),
    decreases fields.len(),
{
    if k < fields.len() {
        assert(fields.drop_last().take(k) =~= fields.take(k));
        lemma_error_persists(doc, fields.drop_last(), k, name, version, behavior, kind);
    } else {
        assert(fields.take(k) =~= fields);
    }
}

/// Sets the field at `path` to `version` once, adding what is missing when
/// `add` holds. Without `add`, a failure leaves the document as it was.
fn try_set_path(doc: &mut FieldDoc, path: &str, version: &str, add: bool, kind: DocumentKind) -> (r: Result<(), MonochangeError>)
    ensures
        match path_attempt(old(doc)@, path@, version@, add, kind) {
            Ok(d) => r is Ok && final(doc)@ == d,
            Err(t) => (r matches Err(MonochangeError::Config(m)) && m@ == t) && (!add ==> final(doc)@ == old(doc)@),
        },
{
    let segs = match field_path_segments(path) {
        Ok(s) => s,
        Err(e) => {
            return Err(e);
        },
    };
    proof {
        lemma_failure_in_range(doc@, 0, views(segs@), 0, version@, add, kind_eager(kind));
    }
    let eager = match kind {
        DocumentKind::Toml => true,
        _ => false,
    };
    match set_field_path(doc, &segs, version, add, eager) {
        Ok(()) => Ok(()),
        Err(f) => Err(failure_error(f, path, &segs, container_name(kind))),
    }
}

/// Sets each templated field of a structured document to `version`, in
/// order (see `fields_applied`), as the kind of document walks its paths.
pub fn set_document_fields(
    doc: &mut FieldDoc,
    fields: &Vec<String>,
    version: &str,
    name: Option<&str>,
    missing_field_behavior: MissingFieldBehavior,
    kind: DocumentKind,
) -> (r: Result<(), MonochangeError>)
    ensures
        match fields_applied(old(doc)@, views(fields@), match name {
            Some(n) => n@,
            None => Seq::<char>::empty(),
        }, version@, missing_field_behavior, kind) {
            Ok(d) => r is Ok && final(doc)@ == d,
            Err(t) => r matches Err(MonochangeError::Config(m)) && m@ == t,
        },
{
    let ghost nm = match name {
        Some(n) => n@,
        None => Seq::<char>::empty(),
    };
    let ghost start = doc@;
    let mut i: usize = 0;
    while i < fields.len()
        invariant
            i <= fields@.len(),
            start == old(doc)@,
            nm == (match name {
                Some(n) => n@,
                None => Seq::<char>::empty(),
            }),
            fields_applied(start, views(fields@).take(i as int), nm, version@, missing_field_behavior, kind)
                == Ok::<Seq<NodeView>, Seq<char>>(doc@),
        decreases fields@.len() - i,
    {
        proof {
            assert(views(fields@).take(i + 1).drop_last() =~= views(fields@).take(i as int));
            assert(views(fields@).take(i + 1).last() == fields@[i as int]@);
        }
        let ghost before = doc@;
        let path = render_versioned_template(fields[i].as_str(), name, version);
        match try_set_path(doc, path.as_str(), version, false, kind) {
            Ok(()) => {},
            Err(error) => {
                let add = match update_format_error_action(path.as_str(), error, missing_field_behavior) {
                    Ok(add) => add,
                    Err(e) => {
                        proof {
                            lemma_error_persists(start, views(fields@), i + 1, nm, version@, missing_field_behavior, kind);
                        }
                        return Err(e);
                    },
                };
                if add {
                    match try_set_path(doc, path.as_str(), version, true, kind) {
                        Ok(()) => {},
                        Err(e) => {
                            proof {
                                lemma_error_persists(start, views(fields@), i + 1, nm, version@, missing_field_behavior, kind);
                            }
                            return Err(e);
                        },
                    }
                }
            },
        }
        i = i + 1;
    }
    assert(views(fields@).take(fields@.len() as int) =~= views(fields@));
    Ok(())
}

} // verus!
