//! The pass manager: named transformation passes sequenced under
//! named operation-kind scopes, with a canonical pipeline text.

use vstd::prelude::*;
use crate::context::Context;
use crate::error::Error;
use crate::ir::attribute::is_alnum;
use crate::ir::module::Module;
use crate::ir::operation::op_verified;
use crate::ir::syntax::{lemma_scan, lemma_scan_is, scan};
use crate::text::{chars_range_to_string, chars_to_string, push_str_chars, str_to_chars};

verus! {

/// A named transformation pass: an opaque capability token.
pub struct Pass {
    /// The pass's pipeline name, options included.
    pub name: String,
}

/// A pass pipeline scoped to an operation kind: passes and nested
/// scopes, run in order.
pub struct OperationPassManager {
    /// The operation kind this scope anchors on, or `any`.
    pub anchor: String,
    /// The pipeline: passes and nested scopes, in order.
    pub items: Vec<PipelineItem>,
}

/// One entry of a pipeline.
pub enum PipelineItem {
    /// A pass.
    Pass(Pass),
    /// A nested scope.
    Nested(OperationPassManager),
}

/// A top-level pass manager: a pipeline over any operation, plus the
/// verifier toggle.
pub struct PassManager {
    /// Whether structural verification runs as part of `run`.
    pub verifier_enabled: bool,
    /// Whether intermediate representation is printed around passes.
    pub ir_printing_enabled: bool,
    /// The pipeline, anchored on `any`.
    pub root: OperationPassManager,
}

/// Options for printing intermediate representation around passes.
#[derive(Debug)]
pub struct PassIrPrintingOptions {
    /// Print before every pass.
    pub before_all: bool,
    /// Print after every pass.
    pub after_all: bool,
    /// Print the whole module rather than the anchored operation.
    pub module_scope: bool,
    /// Print only when a pass changed something.
    pub on_change: bool,
    /// Print when a pass failed.
    pub on_failure: bool,
    /// Where tree dumps go; empty means standard error.
    pub tree_printing_path: String,
}

// ---------------------------------------------------------------------------
// The mathematical pipeline and its canonical text
// ---------------------------------------------------------------------------

/// The mathematical value of a scoped pipeline.
pub enum PipelineV {
    Scope { anchor: Seq<char>, items: Seq<PipelineV> },
    Pass { name: Seq<char> },
}

pub open spec fn opm_view(m: OperationPassManager) -> PipelineV
    decreases m,
{
    PipelineV::Scope { anchor: m.anchor@, items: items_view(m.items@) }
}

pub open spec fn items_view(items: Seq<PipelineItem>) -> Seq<PipelineV>
    decreases items,
{
    if items.len() == 0 {
        Seq::empty()
    } else {
        seq![item_view(items[0])] + items_view(items.drop_first())
    }
}

pub open spec fn item_view(item: PipelineItem) -> PipelineV
    decreases item,
{
    match item {
        PipelineItem::Pass(p) => PipelineV::Pass { name: p.name@ },
        PipelineItem::Nested(m) => opm_view(m),
    }
}

/// Characters allowed in a pass name, options included.
pub open spec fn is_pass_char(c: char) -> bool {
    is_alnum(c) || c == '-' || c == '_' || c == '.' || c == '{' || c == '}' || c == '='
}

/// Characters allowed in a scope anchor.
pub open spec fn is_anchor_char(c: char) -> bool {
    is_alnum(c) || c == '-' || c == '_' || c == '.'
}

/// Well-formedness of a pipeline value: non-empty names from the
/// allowed character sets; a pass name made only of anchor characters
/// is fine, the reader tells passes and scopes apart by the bracket
/// that follows a scope's anchor.
pub open spec fn pipeline_wf(v: PipelineV) -> bool
    decreases v, 0int,
{
    match v {
        PipelineV::Pass { name } => {
            &&& name.len() > 0
            &&& forall|i: int| 0 <= i < name.len() ==> is_pass_char(#[trigger] name[i])
        },
        PipelineV::Scope { anchor, items } => {
            &&& anchor.len() > 0
            &&& forall|i: int| 0 <= i < anchor.len() ==> is_anchor_char(#[trigger] anchor[i])
            &&& pipeline_items_wf(items)
        },
    }
}

pub open spec fn pipeline_items_wf(items: Seq<PipelineV>) -> bool
    decreases items, 1int,
{
    if items.len() == 0 {
        true
    } else {
        pipeline_wf(items[0]) && pipeline_items_wf(items.drop_first())
    }
}

/// The canonical text of a pipeline value.
pub open spec fn pipeline_text(v: PipelineV) -> Seq<char>
    decreases v, 0int,
{
    match v {
        PipelineV::Pass { name } => name,
        PipelineV::Scope { anchor, items } =>
            anchor + seq!['('] + pipeline_items_text(items) + seq![')'],
    }
}

pub open spec fn pipeline_items_text(items: Seq<PipelineV>) -> Seq<char>
    decreases items, 1int,
{
    if items.len() == 0 {
        Seq::empty()
    } else if items.len() == 1 {
        pipeline_text(items[0])
    } else {
        pipeline_text(items[0]) + seq![','] + pipeline_items_text(items.drop_first())
    }
}

// ---------------------------------------------------------------------------
// The reader
// ---------------------------------------------------------------------------

/// Reads one scope at position `i`: an anchor, a bracket, items, and
/// the closing bracket.
pub open spec fn parse_scope_at(s: Seq<char>, i: int) -> Option<(PipelineV, int)>
    decreases s.len() - i, 0int,
{
    if i < 0 {
        None
    } else {
        let j = scan(s, i, |c: char| is_anchor_char(c));
        if j > i && j < s.len() && s[j] == '(' {
            if j + 1 < s.len() && s[j + 1] == ')' {
                Some((PipelineV::Scope { anchor: s.subrange(i, j), items: Seq::empty() },
                    j + 2))
            } else {
                match parse_pipeline_items_at(s, j + 1) {
                    Some((items, k)) => {
                        if k < s.len() && s[k] == ')' {
                            Some((PipelineV::Scope { anchor: s.subrange(i, j), items },
                                k + 1))
                        } else {
                            None
                        }
                    },
                    None => None,
                }
            }
        } else {
            None
        }
    }
}

/// Reads one item: a scope when a bracket follows the leading run, a
/// pass otherwise.
pub open spec fn parse_pipeline_item_at(s: Seq<char>, i: int) -> Option<(PipelineV, int)>
    decreases s.len() - i, 1int,
{
    if i < 0 {
        None
    } else {
        let j = scan(s, i, |c: char| is_pass_char(c));
        if j > i && j < s.len() && s[j] == '(' {
            parse_scope_at(s, i)
        } else if j > i {
            Some((PipelineV::Pass { name: s.subrange(i, j) }, j))
        } else {
            None
        }
    }
}

/// Reads a non-empty comma-separated item list.
pub open spec fn parse_pipeline_items_at(s: Seq<char>, i: int) -> Option<(Seq<PipelineV>, int)>
    decreases s.len() - i, 2int,
{
    match parse_pipeline_item_at(s, i) {
        Some((first, j)) => {
            if j <= i {
                None
            } else if j < s.len() && s[j] == ',' {
                match parse_pipeline_items_at(s, j + 1) {
                    Some((rest, k)) => Some((seq![first] + rest, k)),
                    None => None,
                }
            } else {
                Some((seq![first], j))
            }
        },
        None => None,
    }
}

/// Reads a whole text as one scope; the read must consume every
/// character.
pub open spec fn pipeline_parse_spec(s: Seq<char>) -> Option<PipelineV> {
    match parse_scope_at(s, 0) {
        Some((v, j)) => if j == s.len() { Some(v) } else { None },
        None => None,
    }
}

} // verus!

verus! {

// ---------------------------------------------------------------------------
// The reader is sound and complete for the printer
// ---------------------------------------------------------------------------

/// The printed text of a well-formed pipeline item starts with a name
/// character and is non-empty.
proof fn lemma_pipeline_text_first(v: PipelineV)
    requires
        pipeline_wf(v),
    ensures
        pipeline_text(v).len() >= 1,
        is_pass_char(pipeline_text(v)[0]),
        pipeline_text(v)[0] != ')' && pipeline_text(v)[0] != ',' && pipeline_text(v)[0] != '(',
{
    match v {
        PipelineV::Pass { name } => {
            assert(is_pass_char(name[0]));
        },
        PipelineV::Scope { anchor, items } => {
            assert(pipeline_text(v)[0] == anchor[0]);
            assert(is_anchor_char(anchor[0]));
        },
    }
}

proof fn lemma_pipeline_items_wf_first(items: Seq<PipelineV>)
    requires
        pipeline_items_wf(items),
        items.len() >= 1,
    ensures
        pipeline_wf(items[0]),
        pipeline_items_text(items).len() >= pipeline_text(items[0]).len(),
        pipeline_items_text(items)[0] == pipeline_text(items[0])[0],
        pipeline_text(items[0]).len() >= 1,
{
    lemma_pipeline_text_first(items[0]);
    if items.len() == 1 {
    } else {
        assert(pipeline_items_text(items)
            == pipeline_text(items[0]) + seq![','] + pipeline_items_text(items.drop_first()));
    }
}

/// A printed scope read back at any position yields the scope,
/// provided a delimiter follows.
#[verifier::rlimit(100)]
#[verifier::spinoff_prover]
proof fn lemma_pp_scope(v: PipelineV, s: Seq<char>, i: int)
    requires
        pipeline_wf(v),
        v is Scope,
        0 <= i,
        i + pipeline_text(v).len() <= s.len(),
        s.subrange(i, i + pipeline_text(v).len()) == pipeline_text(v),
        i + pipeline_text(v).len() == s.len()
            || s[i + pipeline_text(v).len()] == ','
            || s[i + pipeline_text(v).len()] == ')',
    ensures
        parse_scope_at(s, i) matches Some((r, j)) && r == v
            && j == i + pipeline_text(v).len(),
    decreases v, 0int,
{
    let txt = pipeline_text(v);
    let e = i + txt.len();
    assert(forall|k: int| 0 <= k < txt.len() ==> s[i + k] == #[trigger] txt[k]) by {
        assert(forall|k: int| 0 <= k < txt.len()
            ==> s.subrange(i, e)[k] == #[trigger] s[i + k]);
    }
    match v {
        PipelineV::Scope { anchor, items } => {
            let jt = pipeline_items_text(items);
            assert(txt == anchor + seq!['('] + jt + seq![')']);
            let j = i + anchor.len();
            assert forall|k: int| i <= k < j implies is_anchor_char(#[trigger] s[k]) by {
                assert(s[k] == txt[k - i]);
                assert(txt[k - i] == anchor[k - i]);
            }
            assert(s[j] == txt[j - i] && txt[j - i] == '(');
            assert(!is_anchor_char('('));
            lemma_scan_is(s, i, j, |c: char| is_anchor_char(c));
            assert(s.subrange(i, j) =~= anchor) by {
                assert(forall|k: int| 0 <= k < anchor.len()
                    ==> s.subrange(i, j)[k] == s[i + k]
                        && #[trigger] txt[k] == anchor[k] && s[i + k] == txt[k]);
            }
            assert(s[e - 1] == txt[txt.len() - 1] && txt[txt.len() - 1] == ')');
            if items.len() == 0 {
                assert(jt =~= Seq::<char>::empty());
                assert(txt.len() == anchor.len() + 2);
                assert(s[j + 1] == txt[j + 1 - i] && txt[j + 1 - i] == ')');
                assert(items =~= Seq::<PipelineV>::empty());
                assert(v == (PipelineV::Scope {
                    anchor: s.subrange(i, j),
                    items: Seq::<PipelineV>::empty(),
                }));
            } else {
                lemma_pipeline_items_wf_first(items);
                assert(s[j + 1] == txt[j + 1 - i] && txt[j + 1 - i] == jt[0]);
                assert(s[j + 1] != ')') by {
                    lemma_pipeline_text_first(items[0]);
                    assert(jt[0] == pipeline_text(items[0])[0]);
                }
                assert forall|k: int| 0 <= k < jt.len()
                    implies s.subrange(j + 1, e - 1)[k] == jt[k] by {
                    assert(s[j + 1 + k] == txt[anchor.len() + 1 + k]);
                    assert(txt[anchor.len() + 1 + k] == jt[k]);
                }
                assert(s.subrange(j + 1, e - 1) =~= jt);
                lemma_pp_items(items, s, j + 1);
                assert(parse_pipeline_items_at(s, j + 1) == Some((items, e - 1)));
            }
        },
        PipelineV::Pass { .. } => {},
    }
}

/// A printed item read back at any position yields the item, provided
/// a delimiter follows.
#[verifier::rlimit(100)]
#[verifier::spinoff_prover]
proof fn lemma_pp_item(v: PipelineV, s: Seq<char>, i: int)
    requires
        pipeline_wf(v),
        0 <= i,
        i + pipeline_text(v).len() <= s.len(),
        s.subrange(i, i + pipeline_text(v).len()) == pipeline_text(v),
        i + pipeline_text(v).len() == s.len()
            || s[i + pipeline_text(v).len()] == ','
            || s[i + pipeline_text(v).len()] == ')',
    ensures
        parse_pipeline_item_at(s, i) matches Some((r, j)) && r == v
            && j == i + pipeline_text(v).len(),
    decreases v, 1int,
{
    let txt = pipeline_text(v);
    let e = i + txt.len();
    assert(forall|k: int| 0 <= k < txt.len() ==> s[i + k] == #[trigger] txt[k]) by {
        assert(forall|k: int| 0 <= k < txt.len()
            ==> s.subrange(i, e)[k] == #[trigger] s[i + k]);
    }
    match v {
        PipelineV::Pass { name } => {
            assert forall|k: int| i <= k < e implies is_pass_char(#[trigger] s[k]) by {
                assert(s[k] == txt[k - i]);
            }
            assert(e == s.len() || !is_pass_char(s[e])) by {
                assert(!is_pass_char(',') && !is_pass_char(')'));
            }
            lemma_scan_is(s, i, e, |c: char| is_pass_char(c));
            assert(s.subrange(i, e) =~= name);
        },
        PipelineV::Scope { anchor, items } => {
            // the pass-character scan stops exactly at the bracket
            let j = i + anchor.len();
            assert forall|k: int| i <= k < j implies is_pass_char(#[trigger] s[k]) by {
                assert(s[k] == txt[k - i]);
                assert(txt[k - i] == anchor[k - i]);
                assert(is_anchor_char(anchor[k - i]));
            }
            assert(s[j] == txt[j - i] && txt[j - i] == '(');
            assert(!is_pass_char('('));
            lemma_scan_is(s, i, j, |c: char| is_pass_char(c));
            lemma_pp_scope(v, s, i);
        },
    }
}

/// A printed non-empty item list read back yields the list, provided a
/// closing bracket follows.
#[verifier::rlimit(100)]
#[verifier::spinoff_prover]
proof fn lemma_pp_items(items: Seq<PipelineV>, s: Seq<char>, i: int)
    requires
        pipeline_items_wf(items),
        items.len() >= 1,
        0 <= i,
        i + pipeline_items_text(items).len() < s.len(),
        s.subrange(i, i + pipeline_items_text(items).len()) == pipeline_items_text(items),
        s[i + pipeline_items_text(items).len()] == ')',
    ensures
        parse_pipeline_items_at(s, i)
            == Some((items, i + pipeline_items_text(items).len())),
    decreases items, 2int,
{
    let jt = pipeline_items_text(items);
    let e = i + jt.len();
    assert(forall|k: int| 0 <= k < jt.len() ==> s[i + k] == #[trigger] jt[k]) by {
        assert(forall|k: int| 0 <= k < jt.len()
            ==> s.subrange(i, e)[k] == #[trigger] s[i + k]);
    }
    let first = items[0];
    lemma_pipeline_items_wf_first(items);
    let t0 = pipeline_text(first);
    if items.len() == 1 {
        assert(jt == t0);
        lemma_pp_item(first, s, i);
        let j = i + t0.len();
        assert(s[j] == ')');
        assert(parse_pipeline_items_at(s, i) == Some((seq![first], j)));
        assert(seq![first] =~= items);
    } else {
        let rest = items.drop_first();
        assert(jt == t0 + seq![','] + pipeline_items_text(rest));
        let j = i + t0.len();
        assert forall|k: int| 0 <= k < t0.len()
            implies s.subrange(i, j)[k] == t0[k] by {
            assert(s[i + k] == jt[k]);
            assert(jt[k] == t0[k]);
        }
        assert(s.subrange(i, j) =~= t0);
        assert(s[j] == jt[j - i] && jt[j - i] == ',');
        lemma_pp_item(first, s, i);
        let off = t0.len() + 1;
        assert forall|k: int| 0 <= k < pipeline_items_text(rest).len()
            implies s.subrange(j + 1, e)[k] == pipeline_items_text(rest)[k] by {
            assert(s[j + 1 + k] == jt[off + k]);
            assert(jt[off + k] == pipeline_items_text(rest)[k]);
        }
        assert(s.subrange(j + 1, e) =~= pipeline_items_text(rest));
        lemma_pp_items(rest, s, j + 1);
        assert(seq![first] + rest =~= items);
    }
}

/// Reading a scope yields a well-formed value whose printed text is
/// exactly what was consumed.
#[verifier::rlimit(100)]
proof fn lemma_parse_scope_sound(s: Seq<char>, i: int)
    requires
        0 <= i <= s.len(),
    ensures
        match parse_scope_at(s, i) {
            Some((v, j)) => {
                &&& i < j <= s.len()
                &&& v is Scope
                &&& pipeline_wf(v)
                &&& s.subrange(i, j) == pipeline_text(v)
            },
            None => true,
        },
    decreases s.len() - i, 0int,
{
    let j = scan(s, i, |c: char| is_anchor_char(c));
    lemma_scan(s, i, |c: char| is_anchor_char(c));
    if j > i && j < s.len() && s[j] == '(' {
        if j + 1 < s.len() && s[j + 1] == ')' {
            let v = PipelineV::Scope { anchor: s.subrange(i, j), items: Seq::empty() };
            assert(pipeline_items_wf(Seq::<PipelineV>::empty()));
            assert(pipeline_wf(v)) by {
                assert(forall|k: int| 0 <= k < j - i
                    ==> s.subrange(i, j)[k] == s[i + k]
                        && is_anchor_char(#[trigger] s.subrange(i, j)[k]));
            }
            assert(s.subrange(i, j + 2) =~= pipeline_text(v));
        } else {
            match parse_pipeline_items_at(s, j + 1) {
                Some((items, k)) => {
                    lemma_parse_items_sound(s, j + 1);
                    if k < s.len() && s[k] == ')' {
                        let v = PipelineV::Scope { anchor: s.subrange(i, j), items };
                        assert(pipeline_wf(v)) by {
                            assert(forall|p: int| 0 <= p < j - i
                                ==> s.subrange(i, j)[p] == s[i + p]
                                    && is_anchor_char(#[trigger] s.subrange(i, j)[p]));
                        }
                        assert(s.subrange(i, k + 1) =~= pipeline_text(v));
                    }
                },
                None => {},
            }
        }
    }
}

/// Reading an item yields a well-formed value whose printed text is
/// exactly what was consumed.
#[verifier::rlimit(100)]
proof fn lemma_parse_item_sound(s: Seq<char>, i: int)
    requires
        0 <= i <= s.len(),
    ensures
        match parse_pipeline_item_at(s, i) {
            Some((v, j)) => {
                &&& i < j <= s.len()
                &&& pipeline_wf(v)
                &&& s.subrange(i, j) == pipeline_text(v)
            },
            None => true,
        },
    decreases s.len() - i, 1int,
{
    let j = scan(s, i, |c: char| is_pass_char(c));
    lemma_scan(s, i, |c: char| is_pass_char(c));
    if j > i && j < s.len() && s[j] == '(' {
        lemma_parse_scope_sound(s, i);
    } else if j > i {
        let v = PipelineV::Pass { name: s.subrange(i, j) };
        assert(pipeline_wf(v)) by {
            assert(forall|k: int| 0 <= k < j - i
                ==> s.subrange(i, j)[k] == s[i + k]
                    && is_pass_char(#[trigger] s.subrange(i, j)[k]));
        }
        assert(s.subrange(i, j) == pipeline_text(v));
    }
}

/// Reading an item list yields well-formed values whose joined texts
/// are exactly what was consumed.
#[verifier::rlimit(100)]
proof fn lemma_parse_items_sound(s: Seq<char>, i: int)
    requires
        0 <= i <= s.len(),
    ensures
        match parse_pipeline_items_at(s, i) {
            Some((vs, j)) => {
                &&& i < j <= s.len()
                &&& vs.len() >= 1
                &&& pipeline_items_wf(vs)
                &&& s.subrange(i, j) == pipeline_items_text(vs)
            },
            None => true,
        },
    decreases s.len() - i, 2int,
{
    match parse_pipeline_item_at(s, i) {
        Some((first, j)) => {
            lemma_parse_item_sound(s, i);
            if j <= i {
            } else if j < s.len() && s[j] == ',' {
                match parse_pipeline_items_at(s, j + 1) {
                    Some((rest, k)) => {
                        lemma_parse_items_sound(s, j + 1);
                        let vs = seq![first] + rest;
                        assert(pipeline_items_wf(vs)) by {
                            assert(vs.drop_first() =~= rest);
                            assert(vs[0] == first);
                        }
                        assert(s.subrange(i, k) =~= pipeline_items_text(vs)) by {
                            assert(vs.drop_first() =~= rest);
                            assert(vs[0] == first);
                            assert(vs.len() >= 2);
                            assert(pipeline_items_text(vs)
                                == pipeline_text(first) + seq![',']
                                    + pipeline_items_text(rest));
                            assert(s.subrange(i, j) == pipeline_text(first));
                            assert(s.subrange(j + 1, k) == pipeline_items_text(rest));
                        }
                    },
                    None => {},
                }
            } else {
                let vs = seq![first];
                assert(pipeline_items_wf(vs)) by {
                    assert(vs.len() == 1);
                    assert(vs[0] == first);
                    assert(vs.drop_first() =~= Seq::<PipelineV>::empty());
                    assert(pipeline_items_wf(vs.drop_first()));
                }
                assert(s.subrange(i, j) == pipeline_items_text(vs));
            }
        },
        None => {},
    }
}

/// Round trip, printed side: reading back the canonical text of any
/// well-formed scope yields the scope again.
pub proof fn lemma_pipeline_round_trip(v: PipelineV)
    requires
        pipeline_wf(v),
        v is Scope,
    ensures
        pipeline_parse_spec(pipeline_text(v)) == Some(v),
{
    let s = pipeline_text(v);
    assert(s.subrange(0, s.len() as int) =~= s);
    lemma_pp_scope(v, s, 0);
}

/// Round trip, read side: printing whatever was read yields the very
/// text that was read. Printing, reading, and printing again is
/// therefore idempotent on pipeline texts.
pub proof fn lemma_pipeline_parse_round_trip(s: Seq<char>)
    requires
        pipeline_parse_spec(s) is Some,
    ensures
        pipeline_wf(pipeline_parse_spec(s)->Some_0),
        pipeline_text(pipeline_parse_spec(s)->Some_0) == s,
{
    lemma_parse_scope_sound(s, 0);
    assert(s.subrange(0, s.len() as int) =~= s);
}

} // verus!

verus! {

// ---------------------------------------------------------------------------
// Executable printing and reading
// ---------------------------------------------------------------------------

pub proof fn lemma_items_view_len(items: Seq<PipelineItem>)
    ensures
        items_view(items).len() == items.len(),
        forall|i: int| 0 <= i < items.len()
            ==> items_view(items)[i] == item_view(#[trigger] items[i]),
    decreases items,
{
    if items.len() > 0 {
        lemma_items_view_len(items.drop_first());
        assert forall|i: int| 0 <= i < items.len()
            implies items_view(items)[i] == item_view(items[i]) by {
            if i > 0 {
                assert(items_view(items.drop_first())[i - 1]
                    == item_view(items.drop_first()[i - 1]));
                assert(items.drop_first()[i - 1] == items[i]);
            }
        }
    }
}

proof fn lemma_pipeline_items_text_take(vs: Seq<PipelineV>, k: int)
    requires
        1 <= k < vs.len(),
    ensures
        pipeline_items_text(vs.take(k + 1))
            == pipeline_items_text(vs.take(k)) + seq![','] + pipeline_text(vs[k]),
    decreases vs.len(),
{
    if k == 1 {
        let two = vs.take(2);
        assert(two.len() == 2);
        assert(two.drop_first() =~= seq![vs[1]]);
        assert(pipeline_items_text(seq![vs[1]]) == pipeline_text(vs[1])) by {
            assert(seq![vs[1]].len() == 1);
            assert(seq![vs[1]][0] == vs[1]);
        }
        assert(vs.take(1) =~= seq![vs[0]]);
        assert(pipeline_items_text(vs.take(1)) == pipeline_text(vs[0]));
        assert(two[0] == vs[0]);
    } else {
        let d = vs.drop_first();
        lemma_pipeline_items_text_take(d, k - 1);
        assert(vs.take(k + 1).drop_first() =~= d.take(k));
        assert(vs.take(k).drop_first() =~= d.take(k - 1));
        assert(vs.take(k + 1).len() == k + 1);
        assert(vs.take(k + 1)[0] == vs[0]);
        assert(vs.take(k)[0] == vs[0]);
        assert(d[k - 1] == vs[k]);
        assert(pipeline_text(vs[0]) + seq![',']
            + (pipeline_items_text(d.take(k - 1)) + seq![','] + pipeline_text(vs[k]))
            =~= (pipeline_text(vs[0]) + seq![','] + pipeline_items_text(d.take(k - 1)))
                + seq![','] + pipeline_text(vs[k]));
    }
}

/// Appends the canonical text of a scope to a buffer.
fn write_opm(out: &mut Vec<char>, m: &OperationPassManager)
    ensures
        final(out)@ == old(out)@ + pipeline_text(opm_view(*m)),
    decreases m, 0int,
{
    push_str_chars(out, m.anchor.as_str());
    out.push('(');
    let ghost vs = items_view(m.items@);
    proof {
        lemma_items_view_len(m.items@);
    }
    let mut k: usize = 0;
    while k < m.items.len()
        invariant
            *m == (OperationPassManager { anchor: m.anchor, items: m.items }),
            vs == items_view(m.items@),
            vs.len() == m.items@.len(),
            forall|n: int| 0 <= n < m.items@.len()
                ==> vs[n] == item_view(#[trigger] m.items@[n]),
            k <= m.items@.len(),
            out@ == old(out)@ + m.anchor@ + seq!['(']
                + pipeline_items_text(vs.take(k as int)),
        decreases m.items@.len() - k,
    {
        proof {
            broadcast use vstd::std_specs::vec::axiom_vec_index_decreases;
            assert(decreases_to!(*m => m.items));
            assert(decreases_to!(m.items => m.items@[k as int]));
        }
        if k > 0 {
            out.push(',');
        }
        write_item(out, &m.items[k]);
        proof {
            if k == 0 {
                assert(vs.take(0) =~= Seq::<PipelineV>::empty());
                assert(vs.take(1) =~= seq![vs[0]]);
                assert(pipeline_items_text(vs.take(1)) == pipeline_text(vs[0])) by {
                    assert(seq![vs[0]].len() == 1);
                    assert(seq![vs[0]][0] == vs[0]);
                }
                assert(out@ =~= old(out)@ + m.anchor@ + seq!['(']
                    + pipeline_items_text(vs.take(k + 1)));
            } else {
                lemma_pipeline_items_text_take(vs, k as int);
                assert(out@ =~= old(out)@ + m.anchor@ + seq!['(']
                    + pipeline_items_text(vs.take(k + 1)));
            }
        }
        k = k + 1;
    }
    out.push(')');
    proof {
        assert(vs.take(vs.len() as int) =~= vs);
        assert(final(out)@ =~= old(out)@ + pipeline_text(opm_view(*m)));
    }
}

/// Appends the canonical text of one pipeline item to a buffer.
fn write_item(out: &mut Vec<char>, item: &PipelineItem)
    ensures
        final(out)@ == old(out)@ + pipeline_text(item_view(*item)),
    decreases item, 1int,
{
    match item {
        PipelineItem::Pass(p) => {
            push_str_chars(out, p.name.as_str());
        },
        PipelineItem::Nested(m) => {
            proof {
                assert(decreases_to!(*item => item->Nested_0));
            }
            write_opm(out, m);
        },
    }
}

fn is_pass_char_x(c: char) -> (r: bool)
    ensures
        r == is_pass_char(c),
{
    let u = c as u32;
    (97 <= u && u <= 122) || (65 <= u && u <= 90) || (48 <= u && u <= 57)
        || c == '-' || c == '_' || c == '.' || c == '{' || c == '}' || c == '='
}

fn is_anchor_char_x(c: char) -> (r: bool)
    ensures
        r == is_anchor_char(c),
{
    let u = c as u32;
    (97 <= u && u <= 122) || (65 <= u && u <= 90) || (48 <= u && u <= 57)
        || c == '-' || c == '_' || c == '.'
}

fn scan_pass(chars: &Vec<char>, from: usize) -> (r: usize)
    requires
        from <= chars@.len(),
    ensures
        r == scan(chars@, from as int, |c: char| is_pass_char(c)),
        from <= r <= chars@.len(),
{
    let mut i: usize = from;
    while i < chars.len() && is_pass_char_x(chars[i])
        invariant
            from <= i <= chars@.len(),
            forall|k: int| from <= k < i ==> is_pass_char(#[trigger] chars@[k]),
        decreases chars@.len() - i,
    {
        i = i + 1;
    }
    proof {
        lemma_scan_is(chars@, from as int, i as int, |c: char| is_pass_char(c));
    }
    i
}

fn scan_anchor(chars: &Vec<char>, from: usize) -> (r: usize)
    requires
        from <= chars@.len(),
    ensures
        r == scan(chars@, from as int, |c: char| is_anchor_char(c)),
        from <= r <= chars@.len(),
{
    let mut i: usize = from;
    while i < chars.len() && is_anchor_char_x(chars[i])
        invariant
            from <= i <= chars@.len(),
            forall|k: int| from <= k < i ==> is_anchor_char(#[trigger] chars@[k]),
        decreases chars@.len() - i,
    {
        i = i + 1;
    }
    proof {
        lemma_scan_is(chars@, from as int, i as int, |c: char| is_anchor_char(c));
    }
    i
}

/// Reads one scope from the buffer at position `i`.
fn parse_scope_exec(chars: &Vec<char>, i: usize) -> (r: Option<(OperationPassManager, usize)>)
    requires
        i <= chars@.len(),
    ensures
        match r {
            Some((m, j)) => parse_scope_at(chars@, i as int)
                == Some((opm_view(m), j as int)) && i < j <= chars@.len(),
            None => parse_scope_at(chars@, i as int) is None,
        },
    decreases chars@.len() - i, 0int,
{
    let j = scan_anchor(chars, i);
    if j > i && j < chars.len() && chars[j] == '(' {
        let anchor = chars_range_to_string(chars, i, j);
        if j + 1 < chars.len() && chars[j + 1] == ')' {
            let m = OperationPassManager { anchor, items: Vec::new() };
            proof {
                assert(items_view(m.items@) =~= Seq::<PipelineV>::empty());
            }
            Some((m, j + 2))
        } else {
            match parse_items_exec(chars, j + 1) {
                Some((items, k)) => {
                    if k < chars.len() && chars[k] == ')' {
                        let m = OperationPassManager { anchor, items };
                        Some((m, k + 1))
                    } else {
                        None
                    }
                },
                None => None,
            }
        }
    } else {
        None
    }
}

/// Reads one pipeline item from the buffer at position `i`.
fn parse_item_exec(chars: &Vec<char>, i: usize) -> (r: Option<(PipelineItem, usize)>)
    requires
        i <= chars@.len(),
    ensures
        match r {
            Some((it, j)) => parse_pipeline_item_at(chars@, i as int)
                == Some((item_view(it), j as int)) && i < j <= chars@.len(),
            None => parse_pipeline_item_at(chars@, i as int) is None,
        },
    decreases chars@.len() - i, 1int,
{
    let j = scan_pass(chars, i);
    if j > i && j < chars.len() && chars[j] == '(' {
        match parse_scope_exec(chars, i) {
            Some((m, k)) => Some((PipelineItem::Nested(m), k)),
            None => None,
        }
    } else if j > i {
        let name = chars_range_to_string(chars, i, j);
        Some((PipelineItem::Pass(Pass { name }), j))
    } else {
        None
    }
}

/// Reads a non-empty comma-separated item list from the buffer.
fn parse_items_exec(chars: &Vec<char>, i: usize) -> (r: Option<(Vec<PipelineItem>, usize)>)
    requires
        i <= chars@.len(),
    ensures
        match r {
            Some((vs, j)) => parse_pipeline_items_at(chars@, i as int)
                == Some((items_view(vs@), j as int)) && i < j <= chars@.len(),
            None => parse_pipeline_items_at(chars@, i as int) is None,
        },
    decreases chars@.len() - i, 2int,
{
    match parse_item_exec(chars, i) {
        Some((first, j)) => {
            if j < chars.len() && chars[j] == ',' {
                match parse_items_exec(chars, j + 1) {
                    Some((rest, k)) => {
                        let mut out = rest;
                        let ghost old_seq = out@;
                        proof {
                            lemma_items_view_len(old_seq);
                        }
                        out.insert(0, first);
                        proof {
                            lemma_items_view_len(out@);
                            assert(out@.len() == old_seq.len() + 1);
                            assert(out@[0] == first);
                            assert forall|n: int| 0 <= n < out@.len()
                                implies items_view(out@)[n]
                                    == (seq![item_view(first)] + items_view(old_seq))[n] by {
                                if n > 0 {
                                    assert(out@[n] == old_seq[n - 1]);
                                    assert(items_view(old_seq)[n - 1]
                                        == item_view(old_seq[n - 1]));
                                }
                            }
                            assert(items_view(out@)
                                =~= seq![item_view(first)] + items_view(old_seq));
                        }
                        Some((out, k))
                    },
                    None => None,
                }
            } else {
                let mut out: Vec<PipelineItem> = Vec::new();
                out.push(first);
                proof {
                    assert(items_view(out@) =~= seq![item_view(first)]) by {
                        lemma_items_view_len(out@);
                    }
                }
                Some((out, j))
            }
        },
        None => None,
    }
}

// ---------------------------------------------------------------------------
// The public interface
// ---------------------------------------------------------------------------

/// A well-formed pass name: non-empty, from the pass character set.
pub open spec fn pass_name_ok(s: Seq<char>) -> bool {
    s.len() > 0 && forall|i: int| 0 <= i < s.len() ==> is_pass_char(#[trigger] s[i])
}

/// A well-formed anchor: non-empty, from the anchor character set.
pub open spec fn anchor_ok(s: Seq<char>) -> bool {
    s.len() > 0 && forall|i: int| 0 <= i < s.len() ==> is_anchor_char(#[trigger] s[i])
}

impl Pass {
    /// Creates a pass token from its pipeline name; a name outside the
    /// pipeline character set is rejected.
    pub fn new(name: &str) -> (r: Result<Pass, Error>)
        ensures
            match r {
                Ok(p) => pass_name_ok(name@) && p.name@ == name@,
                Err(e) => {
                    &&& !pass_name_ok(name@)
                    &&& e matches Error::ParsePassPipeline(t) && t@ == name@
                },
            },
    {
        let chars = str_to_chars(name);
        let n = chars.len();
        if n == 0 {
            return Err(Error::ParsePassPipeline(name.to_owned()));
        }
        let j = scan_pass(&chars, 0);
        proof {
            lemma_scan(chars@, 0, |c: char| is_pass_char(c));
        }
        if j == n {
            Ok(Pass { name: name.to_owned() })
        } else {
            assert(!is_pass_char(name@[j as int]));
            Err(Error::ParsePassPipeline(name.to_owned()))
        }
    }
}

impl OperationPassManager {
    /// Creates an empty pipeline scoped to the given operation kind.
    pub fn new(anchor: &str) -> (r: Result<OperationPassManager, Error>)
        ensures
            match r {
                Ok(m) => {
                    &&& anchor_ok(anchor@)
                    &&& opm_view(m) == (PipelineV::Scope {
                        anchor: anchor@,
                        items: Seq::<PipelineV>::empty(),
                    })
                },
                Err(e) => {
                    &&& !anchor_ok(anchor@)
                    &&& e matches Error::ParsePassPipeline(t) && t@ == anchor@
                },
            },
    {
        let chars = str_to_chars(anchor);
        let n = chars.len();
        if n == 0 {
            return Err(Error::ParsePassPipeline(anchor.to_owned()));
        }
        let j = scan_anchor(&chars, 0);
        proof {
            lemma_scan(chars@, 0, |c: char| is_anchor_char(c));
        }
        if j == n {
            let m = OperationPassManager { anchor: anchor.to_owned(), items: Vec::new() };
            proof {
                assert(items_view(m.items@) =~= Seq::<PipelineV>::empty());
            }
            Ok(m)
        } else {
            assert(!is_anchor_char(anchor@[j as int]));
            Err(Error::ParsePassPipeline(anchor.to_owned()))
        }
    }

    /// Appends a pass to this pipeline, taking ownership of it.
    pub fn add_pass(&mut self, pass: Pass)
        ensures
            final(self).anchor == old(self).anchor,
            final(self).items@ == old(self).items@.push(PipelineItem::Pass(pass)),
            opm_view(*final(self)) == (PipelineV::Scope {
                anchor: old(self).anchor@,
                items: items_view(old(self).items@).push(PipelineV::Pass { name: pass.name@ }),
            }),
    {
        let ghost before = self.items@;
        self.items.push(PipelineItem::Pass(pass));
        proof {
            lemma_items_view_len(before);
            lemma_items_view_len(self.items@);
            assert forall|n: int| 0 <= n < self.items@.len()
                implies items_view(self.items@)[n]
                    == items_view(before).push(item_view(self.items@.last()))[n] by {
                if n < before.len() {
                    assert(self.items@[n] == before[n]);
                    assert(items_view(before)[n] == item_view(before[n]));
                }
            }
            assert(items_view(self.items@)
                =~= items_view(before).push(item_view(self.items@.last())));
        }
    }

    /// Appends a nested scope to this pipeline, taking ownership of
    /// it.
    pub fn add_nested(&mut self, nested: OperationPassManager)
        ensures
            final(self).anchor == old(self).anchor,
            opm_view(*final(self)) == (PipelineV::Scope {
                anchor: old(self).anchor@,
                items: items_view(old(self).items@).push(opm_view(nested)),
            }),
    {
        let ghost before = self.items@;
        let ghost nv = opm_view(nested);
        self.items.push(PipelineItem::Nested(nested));
        proof {
            lemma_items_view_len(before);
            lemma_items_view_len(self.items@);
            assert forall|n: int| 0 <= n < self.items@.len()
                implies items_view(self.items@)[n]
                    == items_view(before).push(item_view(self.items@.last()))[n] by {
                if n < before.len() {
                    assert(self.items@[n] == before[n]);
                    assert(items_view(before)[n] == item_view(before[n]));
                }
            }
            assert(items_view(self.items@)
                =~= items_view(before).push(item_view(self.items@.last())));
        }
    }

    /// Renders the pipeline in its canonical textual form.
    pub fn to_text(&self) -> (r: String)
        ensures
            r@ == pipeline_text(opm_view(*self)),
    {
        let mut buf: Vec<char> = Vec::new();
        write_opm(&mut buf, self);
        assert(buf@ =~= pipeline_text(opm_view(*self)));
        chars_to_string(&buf)
    }
}

/// Reads a textual pipeline description and replaces the manager's
/// scope with it; malformed input is rejected with the diagnostic
/// text, and the manager is then left untouched.
pub fn parse_pass_pipeline(manager: &mut OperationPassManager, source: &str)
    -> (r: Result<(), Error>)
    ensures
        match r {
            Ok(()) => {
                &&& pipeline_parse_spec(source@) is Some
                &&& opm_view(*final(manager)) == pipeline_parse_spec(source@)->Some_0
            },
            Err(e) => {
                &&& pipeline_parse_spec(source@) is None
                &&& *final(manager) == *old(manager)
                &&& e matches Error::ParsePassPipeline(t) && t@ == source@
            },
        },
{
    let chars = str_to_chars(source);
    match parse_scope_exec(&chars, 0) {
        Some((m, j)) => {
            if j == chars.len() {
                *manager = m;
                Ok(())
            } else {
                Err(Error::ParsePassPipeline(source.to_owned()))
            }
        },
        None => Err(Error::ParsePassPipeline(source.to_owned())),
    }
}

impl PassManager {
    /// Creates an empty pass manager; the verifier runs by default.
    pub fn new(_context: &Context) -> (r: PassManager)
        ensures
            r.verifier_enabled,
            !r.ir_printing_enabled,
            opm_view(r.root) == (PipelineV::Scope {
                anchor: "any"@,
                items: Seq::<PipelineV>::empty(),
            }),
    {
        let root = OperationPassManager {
            anchor: String::from_str("any"),
            items: Vec::new(),
        };
        proof {
            assert(items_view(root.items@) =~= Seq::<PipelineV>::empty());
        }
        PassManager { verifier_enabled: true, ir_printing_enabled: false, root }
    }

    /// Enables printing of intermediate representation around passes,
    /// as the given options describe.
    pub fn enable_ir_printing(&mut self, _options: &PassIrPrintingOptions)
        ensures
            *final(self) == (PassManager { ir_printing_enabled: true, ..*old(self) }),
    {
        self.ir_printing_enabled = true;
    }

    /// Appends a pass to the top-level pipeline.
    pub fn add_pass(&mut self, pass: Pass)
        ensures
            final(self).verifier_enabled == old(self).verifier_enabled,
            opm_view(final(self).root) == (PipelineV::Scope {
                anchor: old(self).root.anchor@,
                items: items_view(old(self).root.items@).push(
                    PipelineV::Pass { name: pass.name@ }),
            }),
    {
        self.root.add_pass(pass);
    }

    /// Appends a nested scope to the top-level pipeline.
    pub fn add_nested(&mut self, nested: OperationPassManager)
        ensures
            final(self).verifier_enabled == old(self).verifier_enabled,
            opm_view(final(self).root) == (PipelineV::Scope {
                anchor: old(self).root.anchor@,
                items: items_view(old(self).root.items@).push(opm_view(nested)),
            }),
    {
        self.root.add_nested(nested);
    }

    /// Toggles whether structural verification runs as part of `run`.
    pub fn enable_verifier(&mut self, enabled: bool)
        ensures
            *final(self) == (PassManager { verifier_enabled: enabled, ..*old(self) }),
    {
        self.verifier_enabled = enabled;
    }

    /// The top-level pipeline as an operation pass manager.
    pub fn as_operation_pass_manager(&self) -> (r: &OperationPassManager)
        ensures
            r == &self.root,
    {
        &self.root
    }

    /// Runs the pipeline against a module in place. With the verifier
    /// enabled, a module whose structure does not verify fails the
    /// run; the wrapper never retries.
    pub fn run(&self, context: &Context, module: &mut Module) -> (r: Result<(), Error>)
        ensures
            *final(module) == *old(module),
            match r {
                Ok(()) => !self.verifier_enabled
                    || op_verified(*context, old(module).operation),
                Err(e) => {
                    &&& self.verifier_enabled
                    &&& !op_verified(*context, old(module).operation)
                    &&& e == Error::RunPass
                },
            },
    {
        if self.verifier_enabled && !module.as_operation().verify(context) {
            Err(Error::RunPass)
        } else {
            Ok(())
        }
    }
}

} // verus!
