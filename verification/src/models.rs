//! The model table `cgn-ctl model ls` prints: the desired state next to
//! the nodes actually serving each model, so drift shows at a glance;
//! and the desired-state document `model load` writes.
use vstd::prelude::*;

use crate::order::{insert_sorted, join_with, joined, lemma_sorted_of, sorted_of, strictly_sorted, string_views};
use crate::text::{decimal, decimal_string, str_eq};

verus! {

/// `cgn-ctl model` subcommands.
#[derive(Debug, Clone)]
pub enum Cmd {
    /// Declare a model's desired state.
    Load {
        name: String,
        tp: u32,
        prefill_replicas: u32,
        decode_replicas: u32,
        max_model_len: Option<u32>,
        cascade: Option<String>,
        extra: Vec<String>,
    },
    /// Remove a model's desired state.
    Unload { name: String },
    /// Show desired and live models.
    Ls,
}

/// The document `model load` writes, stamped with `stamp`; the other
/// subcommands write none.
pub fn load_doc(cmd: Cmd, stamp: String) -> (d: Option<ModelDoc>)
    ensures
        match cmd {
            Cmd::Load { name, tp, prefill_replicas, decode_replicas, max_model_len, cascade, extra } => d == Some(
                ModelDoc {
                    name,
                    tp,
                    prefill_replicas,
                    decode_replicas,
                    max_model_len,
                    cascade,
                    extra_args: extra,
                    stamp,
                },
            ),
            _ => d is None,
        },
{
    match cmd {
        Cmd::Load { name, tp, prefill_replicas, decode_replicas, max_model_len, cascade, extra } => Some(
            ModelDoc { name, tp, prefill_replicas, decode_replicas, max_model_len, cascade, extra_args: extra, stamp },
        ),
        _ => None,
    }
}

/// A desired-state model document (`/cognitora/models/<name>`).
#[derive(Debug, Clone)]
pub struct ModelDoc {
    pub name: String,
    pub tp: u32,
    pub prefill_replicas: u32,
    pub decode_replicas: u32,
    pub max_model_len: Option<u32>,
    pub cascade: Option<String>,
    pub extra_args: Vec<String>,
    pub stamp: String,
}

/// What the model table reads of a node registration.
#[derive(Debug, Clone)]
pub struct AgentRow {
    pub node_id: String,
    pub model: Option<String>,
    pub ready: bool,
}

/// The desired-state columns of a model line.
#[derive(Debug, Clone)]
pub struct DesiredCols {
    pub tp: u32,
    pub prefill_replicas: u32,
    pub decode_replicas: u32,
    /// The maximum model length, or `-`.
    pub max_len: String,
    /// The cascade model, or `-`.
    pub cascade: String,
}

/// One line of the model table.
#[derive(Debug, Clone)]
pub struct ModelLine {
    pub name: String,
    /// The desired state; `None` marks drift (served but not desired).
    pub desired: Option<DesiredCols>,
    /// Comma-separated ready nodes serving the model, or `-`.
    pub live: String,
}

/// Names of the desired-state documents.
pub open spec fn doc_names(docs: Seq<ModelDoc>) -> Set<Seq<char>> {
    Set::new(|n: Seq<char>| exists|k: int| 0 <= k < docs.len() && (#[trigger] docs[k]).name@ == n)
}

/// Whether a row reports node `row.node_id` ready and serving `model`.
pub open spec fn serves(row: AgentRow, model: Seq<char>) -> bool {
    row.ready && (row.model matches Some(m) && m@ == model)
}

/// Models some ready node reports serving.
pub open spec fn live_models(rows: Seq<AgentRow>) -> Set<Seq<char>> {
    Set::new(|m: Seq<char>| exists|k: int| 0 <= k < rows.len() && serves(#[trigger] rows[k], m))
}

/// Ready nodes serving `model`.
pub open spec fn live_nodes(rows: Seq<AgentRow>, model: Seq<char>) -> Set<Seq<char>> {
    Set::new(|n: Seq<char>| exists|k: int| 0 <= k < rows.len() && serves(#[trigger] rows[k], model) && rows[k].node_id@ == n)
}

/// Index of the last document named `name`: later documents win.
pub open spec fn last_doc(docs: Seq<ModelDoc>, name: Seq<char>) -> Option<int>
    decreases docs.len(),
{
    if docs.len() == 0 {
        None
    } else if docs.last().name@ == name {
        Some(docs.len() - 1)
    } else {
        last_doc(docs.drop_last(), name)
    }
}

/// The desired-state columns of a document.
pub open spec fn cols_of(d: ModelDoc) -> (u32, u32, u32, Seq<char>, Seq<char>) {
    (
        d.tp,
        d.prefill_replicas,
        d.decode_replicas,
        match d.max_model_len {
            Some(n) => decimal(n as nat),
            None => "-"@,
        },
        match d.cascade {
            Some(c) => c@,
            None => "-"@,
        },
    )
}

/// Abstract desired-state columns of a line.
pub open spec fn desired_view(c: Option<DesiredCols>) -> Option<(u32, u32, u32, Seq<char>, Seq<char>)> {
    match c {
        Some(c) => Some((c.tp, c.prefill_replicas, c.decode_replicas, c.max_len@, c.cascade@)),
        None => None,
    }
}

/// The live column of model `name`.
pub open spec fn live_text(rows: Seq<AgentRow>, name: Seq<char>) -> Seq<char> {
    if live_models(rows).contains(name) {
        joined(sorted_of(live_nodes(rows, name)), ","@)
    } else {
        "-"@
    }
}

/// Line `line` is the table's line for model `name`.
pub open spec fn line_for(docs: Seq<ModelDoc>, rows: Seq<AgentRow>, line: ModelLine) -> bool {
    &&& desired_view(line.desired) == match last_doc(docs, line.name@) {
        Some(k) => Some(cols_of(docs[k])),
        None => None,
    }
    &&& line.live@ == live_text(rows, line.name@)
}

/// Names of the lines of a table.
pub open spec fn line_names(lines: Seq<ModelLine>) -> Seq<Seq<char>> {
    lines.map_values(|l: ModelLine| l.name@)
}

proof fn lemma_last_doc_some(docs: Seq<ModelDoc>, name: Seq<char>)
    ensures
        last_doc(docs, name) matches Some(k) ==> 0 <= k < docs.len() && docs[k].name@ == name,
        last_doc(docs, name) is None <==> !doc_names(docs).contains(name),
    decreases docs.len(),
{
    if docs.len() > 0 {
        lemma_last_doc_some(docs.drop_last(), name);
        if docs.last().name@ != name {
            if doc_names(docs).contains(name) {
                let k = choose|k: int| 0 <= k < docs.len() && (#[trigger] docs[k]).name@ == name;
                assert(k < docs.len() - 1);
                assert(docs.drop_last()[k].name@ == name);
            }
            if doc_names(docs.drop_last()).contains(name) {
                let k = choose|k: int| 0 <= k < docs.drop_last().len() && (#[trigger] docs.drop_last()[k]).name@
                    == name;
                assert(docs[k].name@ == name);
            }
        } else {
            assert(docs[docs.len() - 1].name@ == name);
        }
    }
}

fn opt_eq(o: &Option<String>, name: &str) -> (b: bool)
    ensures
        b == (o matches Some(m) && m@ == name@),
{
    match o {
        Some(m) => str_eq(m.as_str(), name),
        None => false,
    }
}

/// The desired-state columns of the last document named `name`.
fn desired_for(docs: &[ModelDoc], name: &str) -> (r: Option<DesiredCols>)
    ensures
        desired_view(r) == match last_doc(docs@, name@) {
            Some(k) => Some(cols_of(docs@[k])),
            None => None,
        },
{
    let mut i: usize = docs.len();
    assert(docs@.take(docs@.len() as int) =~= docs@);
    while i > 0
        invariant
            i <= docs@.len(),
            last_doc(docs@, name@) == last_doc(docs@.take(i as int), name@),
        decreases i,
    {
        assert(docs@.take(i as int).drop_last() =~= docs@.take(i - 1));
        let d = &docs[i - 1];
        if str_eq(d.name.as_str(), name) {
            let max_len = match d.max_model_len {
                Some(n) => decimal_string(n as u64),
                None => String::from_str("-"),
            };
            let cascade = match &d.cascade {
                Some(c) => c.clone(),
                None => String::from_str("-"),
            };
            return Some(DesiredCols {
                tp: d.tp,
                prefill_replicas: d.prefill_replicas,
                decode_replicas: d.decode_replicas,
                max_len,
                cascade,
            });
        }
        i = i - 1;
    }
    None
}

/// The ready nodes serving `name`, in order.
fn nodes_serving(rows: &[AgentRow], name: &str) -> (t: Vec<String>)
    ensures
        strictly_sorted(string_views(t@)),
        string_views(t@).to_set() == live_nodes(rows@, name@),
{
    let mut t: Vec<String> = Vec::new();
    let mut i: usize = 0;
    assert(string_views(t@).to_set() =~= live_nodes(rows@.take(0), name@));
    while i < rows.len()
        invariant
            i <= rows@.len(),
            strictly_sorted(string_views(t@)),
            string_views(t@).to_set() == live_nodes(rows@.take(i as int), name@),
        decreases rows@.len() - i,
    {
        let r = &rows[i];
        let ghost pre = rows@.take(i as int);
        let ghost post = rows@.take(i + 1);
        assert(post[i as int] == rows@[i as int]);
        if r.ready && opt_eq(&r.model, name) {
            insert_sorted(&mut t, r.node_id.clone());
            assert(live_nodes(post, name@) =~= live_nodes(pre, name@).insert(rows@[i as int].node_id@)) by {
                assert forall|n: Seq<char>| live_nodes(post, name@).contains(n) implies live_nodes(
                    pre,
                    name@,
                ).insert(rows@[i as int].node_id@).contains(n) by {
                    let k = choose|k: int| 0 <= k < post.len() && serves(#[trigger] post[k], name@) && post[k].node_id@ == n;
                    if k < i {
                        assert(pre[k] == post[k]);
                    }
                }
                assert forall|n: Seq<char>| live_nodes(pre, name@).insert(rows@[i as int].node_id@).contains(n) implies live_nodes(
                    post,
                    name@,
                ).contains(n) by {
                    if n != rows@[i as int].node_id@ {
                        let k = choose|k: int| 0 <= k < pre.len() && serves(#[trigger] pre[k], name@) && pre[k].node_id@ == n;
                        assert(post[k] == pre[k]);
                    }
                }
            }
        } else {
            assert(live_nodes(post, name@) =~= live_nodes(pre, name@)) by {
                assert forall|n: Seq<char>| live_nodes(post, name@).contains(n) implies live_nodes(pre, name@).contains(n) by {
                    let k = choose|k: int| 0 <= k < post.len() && serves(#[trigger] post[k], name@) && post[k].node_id@ == n;
                    if k < i {
                        assert(pre[k] == post[k]);
                    }
                }
                assert forall|n: Seq<char>| live_nodes(pre, name@).contains(n) implies live_nodes(post, name@).contains(n) by {
                    let k = choose|k: int| 0 <= k < pre.len() && serves(#[trigger] pre[k], name@) && pre[k].node_id@ == n;
                    assert(post[k] == pre[k]);
                }
            }
        }
        i = i + 1;
    }
    assert(rows@.take(rows@.len() as int) =~= rows@);
    t
}

/// All model names of the table, in order: desired or served.
fn table_names(docs: &[ModelDoc], rows: &[AgentRow]) -> (names: Vec<String>)
    ensures
        strictly_sorted(string_views(names@)),
        string_views(names@).to_set() == doc_names(docs@) + live_models(rows@),
{
    let mut names: Vec<String> = Vec::new();
    let mut i: usize = 0;
    assert(string_views(names@).to_set() =~= doc_names(docs@.take(0)));
    while i < docs.len()
        invariant
            i <= docs@.len(),
            strictly_sorted(string_views(names@)),
            string_views(names@).to_set() == doc_names(docs@.take(i as int)),
        decreases docs@.len() - i,
    {
        let ghost pre = docs@.take(i as int);
        let ghost post = docs@.take(i + 1);
        insert_sorted(&mut names, docs[i].name.clone());
        assert(doc_names(post) =~= doc_names(pre).insert(docs@[i as int].name@)) by {
            assert forall|n: Seq<char>| doc_names(post).contains(n) implies doc_names(pre).insert(
                docs@[i as int].name@,
            ).contains(n) by {
                let k = choose|k: int| 0 <= k < post.len() && (#[trigger] post[k]).name@ == n;
                if k < i {
                    assert(pre[k] == post[k]);
                }
            }
            assert forall|n: Seq<char>| doc_names(pre).insert(docs@[i as int].name@).contains(n) implies doc_names(
                post,
            ).contains(n) by {
                if n == docs@[i as int].name@ {
                    assert(post[i as int].name@ == n);
                } else {
                    let k = choose|k: int| 0 <= k < pre.len() && (#[trigger] pre[k]).name@ == n;
                    assert(post[k] == pre[k]);
                }
            }
        }
        i = i + 1;
    }
    assert(docs@.take(docs@.len() as int) =~= docs@);
    let mut j: usize = 0;
    assert(doc_names(docs@) + live_models(rows@.take(0)) =~= doc_names(docs@));
    while j < rows.len()
        invariant
            j <= rows@.len(),
            strictly_sorted(string_views(names@)),
            string_views(names@).to_set() == doc_names(docs@) + live_models(rows@.take(j as int)),
        decreases rows@.len() - j,
    {
        let ghost pre = rows@.take(j as int);
        let ghost post = rows@.take(j + 1);
        assert(post[j as int] == rows@[j as int]);
        let r = &rows[j];
        match &r.model {
            Some(m) => {
                if r.ready {
                    insert_sorted(&mut names, m.clone());
                    assert(live_models(post) =~= live_models(pre).insert(m@)) by {
                        assert forall|x: Seq<char>| live_models(post).contains(x) implies live_models(pre).insert(
                            m@,
                        ).contains(x) by {
                            let k = choose|k: int| 0 <= k < post.len() && serves(#[trigger] post[k], x);
                            if k < j {
                                assert(pre[k] == post[k]);
                            }
                        }
                        assert forall|x: Seq<char>| live_models(pre).insert(m@).contains(x) implies live_models(
                            post,
                        ).contains(x) by {
                            if x == m@ {
                                assert(serves(post[j as int], x));
                            } else {
                                let k = choose|k: int| 0 <= k < pre.len() && serves(#[trigger] pre[k], x);
                                assert(post[k] == pre[k]);
                            }
                        }
                    }
                    assert(doc_names(docs@) + live_models(post) =~= (doc_names(docs@) + live_models(pre)).insert(m@));
                } else {
                    assert(live_models(post) =~= live_models(pre)) by {
                        assert forall|x: Seq<char>| live_models(post).contains(x) implies live_models(pre).contains(x) by {
                            let k = choose|k: int| 0 <= k < post.len() && serves(#[trigger] post[k], x);
                            if k < j {
                                assert(pre[k] == post[k]);
                            }
                        }
                        assert forall|x: Seq<char>| live_models(pre).contains(x) implies live_models(post).contains(x) by {
                            let k = choose|k: int| 0 <= k < pre.len() && serves(#[trigger] pre[k], x);
                            assert(post[k] == pre[k]);
                        }
                    }
                }
            },
            None => {
                assert(live_models(post) =~= live_models(pre)) by {
                    assert forall|x: Seq<char>| live_models(post).contains(x) implies live_models(pre).contains(x) by {
                        let k = choose|k: int| 0 <= k < post.len() && serves(#[trigger] post[k], x);
                        if k < j {
                            assert(pre[k] == post[k]);
                        }
                    }
                    assert forall|x: Seq<char>| live_models(pre).contains(x) implies live_models(post).contains(x) by {
                        let k = choose|k: int| 0 <= k < pre.len() && serves(#[trigger] pre[k], x);
                        assert(post[k] == pre[k]);
                    }
                }
            },
        }
        j = j + 1;
    }
    assert(rows@.take(rows@.len() as int) =~= rows@);
    names
}

/// The model table: one line per model that is desired or served, in
/// name order, with the desired state of the last document of that name
/// (none for drift) and the ready nodes serving it.
pub fn model_table(docs: &[ModelDoc], rows: &[AgentRow]) -> (lines: Vec<ModelLine>)
    ensures
        strictly_sorted(line_names(lines@)),
        line_names(lines@).to_set() == doc_names(docs@) + live_models(rows@),
        forall|i: int| 0 <= i < lines@.len() ==> line_for(docs@, rows@, #[trigger] lines@[i]),
{
    let names = table_names(docs, rows);
    let mut lines: Vec<ModelLine> = Vec::new();
    let mut i: usize = 0;
    while i < names.len()
        invariant
            i <= names@.len(),
            line_names(lines@) == string_views(names@).take(i as int),
            forall|k: int| 0 <= k < lines@.len() ==> line_for(docs@, rows@, #[trigger] lines@[k]),
        decreases names@.len() - i,
    {
        let name = names[i].as_str();
        let desired = desired_for(docs, name);
        let serving = nodes_serving(rows, name);
        proof {
            lemma_sorted_of(string_views(serving@), live_nodes(rows@, name@));
            if serving@.len() == 0 {
                if live_models(rows@).contains(name@) {
                    let k = choose|k: int| 0 <= k < rows@.len() && serves(#[trigger] rows@[k], name@);
                    assert(live_nodes(rows@, name@).contains(rows@[k].node_id@));
                    assert(string_views(serving@).to_set().contains(rows@[k].node_id@));
                }
            } else {
                assert(string_views(serving@).to_set().contains(string_views(serving@)[0]));
                let k = choose|k: int| 0 <= k < rows@.len() && serves(#[trigger] rows@[k], name@)
                    && rows@[k].node_id@ == string_views(serving@)[0];
                assert(live_models(rows@).contains(name@));
            }
        }
        let live = if serving.len() == 0 {
            String::from_str("-")
        } else {
            join_with(serving.as_slice(), ",")
        };
        let line = ModelLine { name: names[i].clone(), desired, live };
        let ghost before = lines@;
        lines.push(line);
        assert(line_names(lines@) =~= line_names(before).push(string_views(names@)[i as int]));
        assert(string_views(names@).take(i + 1) =~= string_views(names@).take(i as int).push(
            string_views(names@)[i as int],
        ));
        i = i + 1;
    }
    assert(string_views(names@).take(names@.len() as int) =~= string_views(names@));
    lines
}

/// A line has no desired state exactly when no document names its model,
/// and then the model is one some ready node serves: drift.
pub proof fn law_drift_is_served_but_not_desired(docs: Seq<ModelDoc>, rows: Seq<AgentRow>, line: ModelLine)
    requires
        line_for(docs, rows, line),
        (doc_names(docs) + live_models(rows)).contains(line.name@),
    ensures
        line.desired is None <==> !doc_names(docs).contains(line.name@),
        line.desired is None ==> live_models(rows).contains(line.name@),
{
    lemma_last_doc_some(docs, line.name@);
}

} // verus!
