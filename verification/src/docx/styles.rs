//! The stylesheet of a WordprocessingML document (`word/styles.xml`) and
//! how styles fold into effective formatting.

use vstd::prelude::*;
use crate::docx::formatting::{
    ParagraphProperties, PprModel, RunProperties, rpr_empty, ppr_empty, rpr_overlay, ppr_overlay,
    copy_rpr, InvalidNumber, rpr_scan, ppr_scan, lemma_rpr_scan, lemma_ppr_scan,
    parse_run_properties_fast, parse_paragraph_properties_fast, lemma_ppr_overlay_identity,
};
use crate::docx::table::TableProperties;
use crate::docx::xml::{
    XmlEvent, XmlTag, attr, attr_str, get_attr, is_named, skip_end, lemma_skip_end,
    skip_element, read_xml_events, well_ended, xml_events_of, event_models,
};
use crate::text::str_eq;

verus! {

/// Parsed stylesheet from `word/styles.xml`.
pub struct StyleSheet {
    /// Document-wide default formatting.
    pub doc_defaults: Option<DocDefaults>,
    /// The style definitions, no two with the same id.
    styles: Vec<Style>,
}

/// Document-wide default properties.
pub struct DocDefaults {
    /// Default run properties applied to all text.
    pub run_properties: Option<RunProperties>,
    /// Default paragraph properties.
    pub paragraph_properties: Option<ParagraphProperties>,
}

/// A single style definition.
pub struct Style {
    /// Unique style identifier (e.g., `"Heading1"`).
    pub style_id: String,
    /// Kind of style.
    pub style_type: StyleType,
    /// Human-readable style name.
    pub name: Option<String>,
    /// ID of the parent style this style inherits from.
    pub based_on: Option<String>,
    /// Run-level overrides for this style.
    pub run_properties: Option<RunProperties>,
    /// Paragraph-level overrides for this style.
    pub paragraph_properties: Option<ParagraphProperties>,
    /// Table-level overrides for this style.
    pub table_properties: Option<TableProperties>,
}

/// The kind of style.
#[derive(Debug, Clone, Copy, PartialEq, Eq)]
pub enum StyleType {
    Paragraph,
    Character,
    Table,
    Numbering,
}

/// A style by its contents.
pub ghost struct StyleModel {
    pub style_type: StyleType,
    pub name: Option<String>,
    pub based_on: Option<String>,
    pub run_properties: Option<RunProperties>,
    pub paragraph_properties: Option<PprModel>,
    pub table_properties: Option<TableProperties>,
}

/// Document defaults by their contents.
pub ghost struct DefaultsModel {
    pub run_properties: Option<RunProperties>,
    pub paragraph_properties: Option<PprModel>,
}

/// A stylesheet: its defaults and its styles by id.
pub ghost struct SheetModel {
    pub doc_defaults: Option<DefaultsModel>,
    pub styles: Map<Seq<char>, StyleModel>,
}

pub open spec fn opt_ppr(o: Option<ParagraphProperties>) -> Option<PprModel> {
    match o {
        Some(p) => Some(p@),
        None => None,
    }
}

impl View for Style {
    type V = StyleModel;

    open spec fn view(&self) -> StyleModel {
        StyleModel {
            style_type: self.style_type,
            name: self.name,
            based_on: self.based_on,
            run_properties: self.run_properties,
            paragraph_properties: opt_ppr(self.paragraph_properties),
            table_properties: self.table_properties,
        }
    }
}

impl View for DocDefaults {
    type V = DefaultsModel;

    open spec fn view(&self) -> DefaultsModel {
        DefaultsModel {
            run_properties: self.run_properties,
            paragraph_properties: opt_ppr(self.paragraph_properties),
        }
    }
}

/// No two styles share an id.
pub open spec fn unique_ids(v: Seq<Style>) -> bool {
    forall|i: int, j: int|
        0 <= i < v.len() && 0 <= j < v.len() && i != j ==> #[trigger] v[i].style_id@
            != #[trigger] v[j].style_id@
}

/// The styles of a list by id.
pub open spec fn styles_map(v: Seq<Style>) -> Map<Seq<char>, StyleModel> {
    Map::new(
        |k: Seq<char>| exists|i: int| 0 <= i < v.len() && v[i].style_id@ == k,
        |k: Seq<char>| v[choose|i: int| 0 <= i < v.len() && v[i].style_id@ == k]@,
    )
}

impl View for StyleSheet {
    type V = SheetModel;

    closed spec fn view(&self) -> SheetModel {
        SheetModel {
            doc_defaults: match self.doc_defaults {
                Some(d) => Some(d@),
                None => None,
            },
            styles: styles_map(self.styles@),
        }
    }
}

impl StyleSheet {
    /// No two styles share an id.
    pub closed spec fn wf(&self) -> bool {
        unique_ids(self.styles@)
    }
}

/// Where keys are unique, the entry at `i` is what the map holds for its
/// key.
proof fn lemma_map_at(v: Seq<Style>, i: int)
    requires
        unique_ids(v),
        0 <= i < v.len(),
    ensures
        styles_map(v).contains_key(v[i].style_id@),
        styles_map(v)[v[i].style_id@] == v[i]@,
{
    let k = v[i].style_id@;
    assert(exists|j: int| 0 <= j < v.len() && v[j].style_id@ == k);
    let c = choose|j: int| 0 <= j < v.len() && v[j].style_id@ == k;
    assert(c == i);
}

/// Replacing the entry at `i` by a style with the same id updates the map
/// at that id.
proof fn lemma_map_update(v: Seq<Style>, i: int, s: Style)
    requires
        unique_ids(v),
        0 <= i < v.len(),
        v[i].style_id@ == s.style_id@,
    ensures
        unique_ids(v.update(i, s)),
        styles_map(v.update(i, s)) == styles_map(v).insert(s.style_id@, s@),
{
    let w = v.update(i, s);
    assert(unique_ids(w)) by {
        assert forall|a: int, b: int|
            0 <= a < w.len() && 0 <= b < w.len() && a != b implies #[trigger] w[a].style_id@
            != #[trigger] w[b].style_id@ by {
            assert(v[a].style_id@ != v[b].style_id@);
        }
    }
    assert forall|k: Seq<char>| #[trigger]
        styles_map(w).contains_key(k) == styles_map(v).insert(s.style_id@, s@).contains_key(
            k,
        ) by {
        let in_w = exists|j: int| 0 <= j < w.len() && w[j].style_id@ == k;
        let in_v = exists|j: int| 0 <= j < v.len() && v[j].style_id@ == k;
        assert(styles_map(w).contains_key(k) == in_w);
        assert(styles_map(v).contains_key(k) == in_v);
        if k == s.style_id@ {
            assert(w[i].style_id@ == k);
            assert(in_w);
        } else {
            if in_v {
                let j = choose|j: int| 0 <= j < v.len() && v[j].style_id@ == k;
                assert(j != i);
                assert(w[j].style_id@ == k);
            }
            if in_w {
                let j = choose|j: int| 0 <= j < w.len() && w[j].style_id@ == k;
                assert(j != i);
                assert(v[j].style_id@ == k);
            }
            assert(in_w == in_v);
        }
    }
    assert forall|k: Seq<char>| styles_map(w).contains_key(k) implies #[trigger] styles_map(w)[k]
        == styles_map(v).insert(s.style_id@, s@)[k] by {
        let j = choose|j: int| 0 <= j < w.len() && w[j].style_id@ == k;
        lemma_map_at(w, j);
        if j != i {
            lemma_map_at(v, j);
        }
    }
    assert(styles_map(w) =~= styles_map(v).insert(s.style_id@, s@));
}

/// Adding a style with a new id adds it to the map.
proof fn lemma_map_push(v: Seq<Style>, s: Style)
    requires
        unique_ids(v),
        !styles_map(v).contains_key(s.style_id@),
    ensures
        unique_ids(v.push(s)),
        styles_map(v.push(s)) == styles_map(v).insert(s.style_id@, s@),
{
    let w = v.push(s);
    assert forall|j: int| 0 <= j < v.len() implies #[trigger] v[j].style_id@ != s.style_id@ by {
        if v[j].style_id@ == s.style_id@ {
            assert(styles_map(v).contains_key(s.style_id@));
        }
    }
    assert(unique_ids(w)) by {
        assert forall|a: int, b: int|
            0 <= a < w.len() && 0 <= b < w.len() && a != b implies #[trigger] w[a].style_id@
            != #[trigger] w[b].style_id@ by {
            if a < v.len() && b < v.len() {
                assert(v[a].style_id@ != v[b].style_id@);
            }
        }
    }
    assert forall|k: Seq<char>| #[trigger]
        styles_map(w).contains_key(k) == styles_map(v).insert(s.style_id@, s@).contains_key(
            k,
        ) by {
        let in_w = exists|j: int| 0 <= j < w.len() && w[j].style_id@ == k;
        let in_v = exists|j: int| 0 <= j < v.len() && v[j].style_id@ == k;
        assert(styles_map(w).contains_key(k) == in_w);
        assert(styles_map(v).contains_key(k) == in_v);
        if k == s.style_id@ {
            assert(w[v.len() as int].style_id@ == k);
            assert(in_w);
        } else {
            if in_v {
                let j = choose|j: int| 0 <= j < v.len() && v[j].style_id@ == k;
                assert(w[j].style_id@ == k);
            }
            if in_w {
                let j = choose|j: int| 0 <= j < w.len() && w[j].style_id@ == k;
                assert(j != v.len());
                assert(v[j].style_id@ == k);
            }
            assert(in_w == in_v);
        }
    }
    assert forall|k: Seq<char>| styles_map(w).contains_key(k) implies #[trigger] styles_map(w)[k]
        == styles_map(v).insert(s.style_id@, s@)[k] by {
        let j = choose|j: int| 0 <= j < w.len() && w[j].style_id@ == k;
        lemma_map_at(w, j);
        if j < v.len() {
            lemma_map_at(v, j);
        }
    }
    assert(styles_map(w) =~= styles_map(v).insert(s.style_id@, s@));
}

/// The index of the style with id `id`.
fn find_style(v: &Vec<Style>, id: &str) -> (r: Option<usize>)
    requires
        unique_ids(v@),
    ensures
        match r {
            Some(i) => i < v@.len() && v@[i as int].style_id@ == id@ && styles_map(v@).contains_key(
                id@,
            ) && styles_map(v@)[id@] == v@[i as int]@,
            None => !styles_map(v@).contains_key(id@),
        },
{
    let mut i: usize = 0;
    while i < v.len()
        invariant
            i <= v@.len(),
            unique_ids(v@),
            forall|j: int| 0 <= j < i ==> #[trigger] v@[j].style_id@ != id@,
        decreases v@.len() - i,
    {
        if str_eq(v[i].style_id.as_str(), id) {
            proof {
                lemma_map_at(v@, i as int);
            }
            return Some(i);
        }
        i = i + 1;
    }
    None
}

/// The styles from `id` up its `basedOn` links, most specific first, at
/// most `n` of them; a missing id ends the chain.
pub open spec fn chain_up(m: Map<Seq<char>, StyleModel>, id: Seq<char>, n: nat) -> Seq<StyleModel>
    decreases n,
{
    if n == 0 || !m.contains_key(id) {
        Seq::empty()
    } else {
        seq![m[id]] + match m[id].based_on {
            Some(b) => chain_up(m, b@, (n - 1) as nat),
            None => Seq::empty(),
        }
    }
}

/// The inheritance chain of `id`: at most 20 styles, so that cycles end.
pub open spec fn style_chain(m: Map<Seq<char>, StyleModel>, id: Seq<char>) -> Seq<StyleModel> {
    chain_up(m, id, 20)
}

/// Run properties overlaid by the styles of an upward chain, root
/// ancestor first, so the most specific style wins.
pub open spec fn fold_rpr(acc: RunProperties, up: Seq<StyleModel>) -> RunProperties
    decreases up.len(),
{
    if up.len() == 0 {
        acc
    } else {
        let root = up.last();
        let next = match root.run_properties {
            Some(r) => rpr_overlay(acc, r),
            None => acc,
        };
        fold_rpr(next, up.drop_last())
    }
}

/// Paragraph properties overlaid by the styles of an upward chain, root
/// ancestor first.
pub open spec fn fold_ppr(acc: PprModel, up: Seq<StyleModel>) -> PprModel
    decreases up.len(),
{
    if up.len() == 0 {
        acc
    } else {
        let root = up.last();
        let next = match root.paragraph_properties {
            Some(p) => ppr_overlay(acc, p),
            None => acc,
        };
        fold_ppr(next, up.drop_last())
    }
}

/// The document default run properties, or none.
pub open spec fn default_rpr(s: SheetModel) -> RunProperties {
    match s.doc_defaults {
        Some(d) => match d.run_properties {
            Some(r) => r,
            None => rpr_empty(),
        },
        None => rpr_empty(),
    }
}

/// The document default paragraph properties, or none.
pub open spec fn default_ppr(s: SheetModel) -> PprModel {
    match s.doc_defaults {
        Some(d) => match d.paragraph_properties {
            Some(p) => p,
            None => ppr_empty(),
        },
        None => ppr_empty(),
    }
}

/// The effective run formatting: document defaults, then the paragraph
/// style chain, then the character style chain named by the run's
/// `w:rStyle`, then the run's own properties.
pub open spec fn effective_rpr(
    s: SheetModel,
    para_style: Option<Seq<char>>,
    direct: Option<RunProperties>,
) -> RunProperties {
    let a = default_rpr(s);
    let b = match para_style {
        Some(pid) => fold_rpr(a, style_chain(s.styles, pid)),
        None => a,
    };
    let c = match direct {
        Some(d) => match d.style_id {
            Some(cid) => fold_rpr(b, style_chain(s.styles, cid@)),
            None => b,
        },
        None => b,
    };
    match direct {
        Some(d) => rpr_overlay(c, d),
        None => c,
    }
}

/// The effective paragraph formatting: document defaults, then the style
/// chain named by the paragraph's own style, then its own properties.
pub open spec fn effective_ppr(s: SheetModel, direct: Option<PprModel>) -> PprModel {
    let a = default_ppr(s);
    let b = match direct {
        Some(d) => match d.style_id {
            Some(pid) => fold_ppr(a, style_chain(s.styles, pid@)),
            None => a,
        },
        None => a,
    };
    match direct {
        Some(d) => ppr_overlay(b, d),
        None => b,
    }
}

/// The `hidden` value of the most specific style of an upward chain
/// that states one.
pub open spec fn first_hidden(up: Seq<StyleModel>) -> Option<bool>
    decreases up.len(),
{
    if up.len() == 0 {
        None
    } else {
        match up[0].run_properties {
            Some(r) => match r.hidden {
                Some(h) => Some(h),
                None => first_hidden(up.drop_first()),
            },
            None => first_hidden(up.drop_first()),
        }
    }
}

/// Whether a run is hidden: the most specific statement among the
/// defaults, the paragraph style chain, the character style chain and
/// the run itself; not hidden where none states it.
pub open spec fn effective_hidden_spec(
    s: SheetModel,
    para_style: Option<Seq<char>>,
    direct: Option<RunProperties>,
) -> bool {
    let a = default_rpr(s).hidden;
    let b = match para_style {
        Some(pid) => match first_hidden(style_chain(s.styles, pid)) {
            Some(h) => Some(h),
            None => a,
        },
        None => a,
    };
    let c = match direct {
        Some(d) => match d.style_id {
            Some(cid) => match first_hidden(style_chain(s.styles, cid@)) {
                Some(h) => Some(h),
                None => b,
            },
            None => b,
        },
        None => b,
    };
    let e = match direct {
        Some(d) => match d.hidden {
            Some(h) => Some(h),
            None => c,
        },
        None => c,
    };
    match e {
        Some(h) => h,
        None => false,
    }
}

/// The outline level of the nearest style from `id` up that states one,
/// looking at most `n` styles up.
pub open spec fn outline_up(m: Map<Seq<char>, StyleModel>, id: Seq<char>, n: nat) -> Option<u8>
    decreases n,
{
    if n == 0 || !m.contains_key(id) {
        None
    } else {
        let st = m[id];
        match st.paragraph_properties {
            Some(p) if p.outline_level is Some => p.outline_level,
            _ => match st.based_on {
                Some(b) => outline_up(m, b@, (n - 1) as nat),
                None => None,
            },
        }
    }
}

/// The hidden flag of a fold is the most specific statement of the chain,
/// else that of the start.
proof fn lemma_fold_hidden(acc: RunProperties, up: Seq<StyleModel>)
    ensures
        fold_rpr(acc, up).hidden == (match first_hidden(up) {
            Some(h) => Some(h),
            None => acc.hidden,
        }),
    decreases up.len(),
{
    if up.len() > 0 {
        let root = up.last();
        let next = match root.run_properties {
            Some(r) => rpr_overlay(acc, r),
            None => acc,
        };
        lemma_fold_hidden(next, up.drop_last());
        lemma_first_hidden_last(up);
    }
}

/// `first_hidden` by the chain without its root and the root.
proof fn lemma_first_hidden_last(up: Seq<StyleModel>)
    requires
        up.len() > 0,
    ensures
        first_hidden(up) == (match first_hidden(up.drop_last()) {
            Some(h) => Some(h),
            None => match up.last().run_properties {
                Some(r) => r.hidden,
                None => None,
            },
        }),
    decreases up.len(),
{
    if up.len() > 1 {
        lemma_first_hidden_last(up.drop_first());
        assert(up.drop_first().drop_last() =~= up.drop_last().drop_first());
        assert(up.drop_first().last() == up.last());
    } else {
        assert(up.drop_last() =~= Seq::<StyleModel>::empty());
        assert(up.drop_first() =~= Seq::<StyleModel>::empty());
    }
}

/// Whether a run is hidden is exactly the hidden flag of its effective
/// run properties (off where none is stated): both follow the same
/// precedence.
pub proof fn lemma_effective_hidden_agrees(
    s: SheetModel,
    para_style: Option<Seq<char>>,
    direct: Option<RunProperties>,
)
    ensures
        effective_hidden_spec(s, para_style, direct) == (match effective_rpr(
            s,
            para_style,
            direct,
        ).hidden {
            Some(h) => h,
            None => false,
        }),
{
    let a = default_rpr(s);
    if let Some(pid) = para_style {
        lemma_fold_hidden(a, style_chain(s.styles, pid));
    }
    let b = match para_style {
        Some(pid) => fold_rpr(a, style_chain(s.styles, pid)),
        None => a,
    };
    if let Some(d) = direct {
        if let Some(cid) = d.style_id {
            lemma_fold_hidden(b, style_chain(s.styles, cid@));
        }
    }
}

/// The direct run properties win over every style: each field they set
/// is the effective one.
pub proof fn lemma_direct_run_properties_win(
    s: SheetModel,
    para_style: Option<Seq<char>>,
    d: RunProperties,
)
    ensures
        d.bold is Some ==> effective_rpr(s, para_style, Some(d)).bold == d.bold,
        d.italic is Some ==> effective_rpr(s, para_style, Some(d)).italic == d.italic,
        d.font_size is Some ==> effective_rpr(s, para_style, Some(d)).font_size == d.font_size,
        d.font_name is Some ==> effective_rpr(s, para_style, Some(d)).font_name == d.font_name,
        d.color is Some ==> effective_rpr(s, para_style, Some(d)).color == d.color,
        d.hidden is Some ==> effective_rpr(s, para_style, Some(d)).hidden == d.hidden,
        effective_rpr(s, para_style, Some(d)) == rpr_overlay(
            effective_rpr(s, para_style, Some(d)),
            d,
        ),
{
}

/// A style's own paragraph properties, or none.
pub open spec fn own_ppr(m: Map<Seq<char>, StyleModel>, id: Seq<char>) -> PprModel {
    match m[id].paragraph_properties {
        Some(p) => p,
        None => ppr_empty(),
    }
}

/// One style's paragraph properties laid over `a`.
spec fn apply_style_ppr(a: PprModel, st: StyleModel) -> PprModel {
    match st.paragraph_properties {
        Some(p) => ppr_overlay(a, p),
        None => a,
    }
}

/// The first style of an upward chain is laid over the rest last.
proof fn lemma_fold_ppr_front(acc: PprModel, up: Seq<StyleModel>)
    requires
        up.len() > 0,
    ensures
        fold_ppr(acc, up) == apply_style_ppr(fold_ppr(acc, up.drop_first()), up[0]),
    decreases up.len(),
{
    if up.len() == 1 {
        assert(up.drop_first().len() == 0);
        assert(up.drop_last().len() == 0);
    } else {
        let a2 = apply_style_ppr(acc, up.last());
        lemma_fold_ppr_front(a2, up.drop_last());
        assert(up.drop_last().drop_first() =~= up.drop_first().drop_last());
        assert(up.drop_first().last() == up.last());
        assert(up.drop_last()[0] == up[0]);
    }
}

/// Paragraph properties are inherited along `basedOn`: for a paragraph
/// of style `sid` based on style `bid`, each property that `bid` sets and
/// that neither `sid` nor the paragraph itself sets is `bid`'s value in
/// the effective properties.
pub proof fn lemma_paragraph_properties_inherited(
    s: SheetModel,
    d: PprModel,
    sid: Seq<char>,
    bid: Seq<char>,
)
    requires
        d.style_id matches Some(x) && x@ == sid,
        s.styles.contains_key(sid),
        s.styles[sid].based_on matches Some(b) && b@ == bid,
        s.styles.contains_key(bid),
    ensures
        ({
            let e = effective_ppr(s, Some(d));
            let sp = own_ppr(s.styles, sid);
            let bp = own_ppr(s.styles, bid);
            &&& (bp.justification is Some && sp.justification is None && d.justification is None)
                ==> e.justification == bp.justification
            &&& (bp.indent is Some && sp.indent is None && d.indent is None) ==> e.indent == bp.indent
            &&& (bp.spacing is Some && sp.spacing is None && d.spacing is None) ==> e.spacing
                == bp.spacing
            &&& (bp.numbering_ref is Some && sp.numbering_ref is None && d.numbering_ref is None)
                ==> e.numbering_ref == bp.numbering_ref
            &&& (bp.outline_level is Some && sp.outline_level is None && d.outline_level is None)
                ==> e.outline_level == bp.outline_level
            &&& (bp.frame_position is Some && sp.frame_position is None && d.frame_position is None)
                ==> e.frame_position == bp.frame_position
            &&& (bp.borders is Some && sp.borders is None && d.borders is None) ==> e.borders
                == bp.borders
            &&& (bp.keep_next is Some && sp.keep_next is None && d.keep_next is None) ==> e.keep_next
                == bp.keep_next
            &&& (bp.keep_lines is Some && sp.keep_lines is None && d.keep_lines is None)
                ==> e.keep_lines == bp.keep_lines
            &&& (bp.page_break_before is Some && sp.page_break_before is None
                && d.page_break_before is None) ==> e.page_break_before == bp.page_break_before
            &&& (bp.shading is Some && sp.shading is None && d.shading is None) ==> e.shading
                == bp.shading
            &&& (bp.has_bottom_border ==> e.has_bottom_border)
        }),
{
    let m = s.styles;
    let chain = style_chain(m, sid);
    let rest = chain_up(m, bid, 19);
    assert(chain == seq![m[sid]] + rest);
    assert(rest == seq![m[bid]] + match m[bid].based_on {
        Some(b) => chain_up(m, b@, 18),
        None => Seq::empty(),
    });
    lemma_fold_ppr_front(default_ppr(s), chain);
    assert(chain.drop_first() =~= rest);
    assert(chain[0] == m[sid]);
    lemma_fold_ppr_front(default_ppr(s), rest);
    assert(rest[0] == m[bid]);
}

/// A style's own run properties, or none.
pub open spec fn own_rpr(m: Map<Seq<char>, StyleModel>, id: Seq<char>) -> RunProperties {
    match m[id].run_properties {
        Some(r) => r,
        None => rpr_empty(),
    }
}

/// One style's run properties laid over `a`.
spec fn apply_style_rpr(a: RunProperties, st: StyleModel) -> RunProperties {
    match st.run_properties {
        Some(r) => rpr_overlay(a, r),
        None => a,
    }
}

/// The first style of an upward chain is laid over the rest last.
proof fn lemma_fold_rpr_front(acc: RunProperties, up: Seq<StyleModel>)
    requires
        up.len() > 0,
    ensures
        fold_rpr(acc, up) == apply_style_rpr(fold_rpr(acc, up.drop_first()), up[0]),
    decreases up.len(),
{
    if up.len() == 1 {
        assert(up.drop_first().len() == 0);
        assert(up.drop_last().len() == 0);
    } else {
        let a2 = apply_style_rpr(acc, up.last());
        lemma_fold_rpr_front(a2, up.drop_last());
        assert(up.drop_last().drop_first() =~= up.drop_first().drop_last());
        assert(up.drop_first().last() == up.last());
        assert(up.drop_last()[0] == up[0]);
    }
}

/// Run formatting is inherited along the paragraph style's `basedOn`:
/// for a run with no character style in a paragraph of style `sid` based
/// on style `bid`, each run property that `bid` sets and that neither
/// `sid` nor the run itself sets is `bid`'s value in the effective
/// properties, and one that `sid` sets and the run does not is `sid`'s.
pub proof fn lemma_run_properties_inherited(
    s: SheetModel,
    d: RunProperties,
    sid: Seq<char>,
    bid: Seq<char>,
)
    requires
        d.style_id is None,
        s.styles.contains_key(sid),
        s.styles[sid].based_on matches Some(b) && b@ == bid,
        s.styles.contains_key(bid),
    ensures
        ({
            let e = effective_rpr(s, Some(sid), Some(d));
            let sp = own_rpr(s.styles, sid);
            let bp = own_rpr(s.styles, bid);
            &&& (bp.bold is Some && sp.bold is None && d.bold is None) ==> e.bold == bp.bold
            &&& (bp.italic is Some && sp.italic is None && d.italic is None) ==> e.italic
                == bp.italic
            &&& (bp.underline is Some && sp.underline is None && d.underline is None)
                ==> e.underline == bp.underline
            &&& (bp.strike is Some && sp.strike is None && d.strike is None) ==> e.strike
                == bp.strike
            &&& (bp.font_size is Some && sp.font_size is None && d.font_size is None)
                ==> e.font_size == bp.font_size
            &&& (bp.font_name is Some && sp.font_name is None && d.font_name is None)
                ==> e.font_name == bp.font_name
            &&& (bp.color is Some && sp.color is None && d.color is None) ==> e.color == bp.color
            &&& (bp.hidden is Some && sp.hidden is None && d.hidden is None) ==> e.hidden
                == bp.hidden
            &&& (sp.bold is Some && d.bold is None) ==> e.bold == sp.bold
            &&& (sp.italic is Some && d.italic is None) ==> e.italic == sp.italic
            &&& (sp.font_size is Some && d.font_size is None) ==> e.font_size == sp.font_size
            &&& (sp.font_name is Some && d.font_name is None) ==> e.font_name == sp.font_name
            &&& (sp.color is Some && d.color is None) ==> e.color == sp.color
        }),
{
    let m = s.styles;
    let chain = style_chain(m, sid);
    let rest = chain_up(m, bid, 19);
    assert(chain == seq![m[sid]] + rest);
    assert(rest == seq![m[bid]] + match m[bid].based_on {
        Some(b) => chain_up(m, b@, 18),
        None => Seq::empty(),
    });
    lemma_fold_rpr_front(default_rpr(s), chain);
    assert(chain.drop_first() =~= rest);
    assert(chain[0] == m[sid]);
    lemma_fold_rpr_front(default_rpr(s), rest);
    assert(rest[0] == m[bid]);
}

/// A run's character style (`w:rStyle`) wins over its paragraph's style:
/// each property that the character style itself sets, and the run does
/// not, is the character style's value in the effective properties.
pub proof fn lemma_character_style_over_paragraph_style(
    s: SheetModel,
    para_style: Option<Seq<char>>,
    d: RunProperties,
    cid: Seq<char>,
)
    requires
        d.style_id matches Some(x) && x@ == cid,
        s.styles.contains_key(cid),
    ensures
        ({
            let e = effective_rpr(s, para_style, Some(d));
            let cp = own_rpr(s.styles, cid);
            &&& (cp.bold is Some && d.bold is None) ==> e.bold == cp.bold
            &&& (cp.italic is Some && d.italic is None) ==> e.italic == cp.italic
            &&& (cp.underline is Some && d.underline is None) ==> e.underline == cp.underline
            &&& (cp.strike is Some && d.strike is None) ==> e.strike == cp.strike
            &&& (cp.font_size is Some && d.font_size is None) ==> e.font_size == cp.font_size
            &&& (cp.font_name is Some && d.font_name is None) ==> e.font_name == cp.font_name
            &&& (cp.color is Some && d.color is None) ==> e.color == cp.color
            &&& (cp.hidden is Some && d.hidden is None) ==> e.hidden == cp.hidden
        }),
{
    let m = s.styles;
    let a = default_rpr(s);
    let b = match para_style {
        Some(pid) => fold_rpr(a, style_chain(s.styles, pid)),
        None => a,
    };
    let chain = style_chain(m, cid);
    assert(chain[0] == m[cid]);
    lemma_fold_rpr_front(b, chain);
}

/// The models of the styles at the given indices, in order.
pub open spec fn idx_models(v: Seq<Style>, idx: Seq<usize>) -> Seq<StyleModel> {
    idx.map_values(|i: usize| v[i as int]@)
}

/// A copy of paragraph properties.
pub fn copy_ppr(p: &ParagraphProperties) -> (r: ParagraphProperties)
    ensures
        r@ == p@,
{
    let mut r = ParagraphProperties::default();
    r.overlay(p);
    proof {
        lemma_ppr_overlay_identity(p@);
    }
    r
}

impl StyleSheet {
    /// A stylesheet with no defaults and no styles.
    pub fn new() -> (r: Self)
        ensures
            r.wf(),
            r@.doc_defaults is None,
            r@.styles == Map::<Seq<char>, StyleModel>::empty(),
    {
        let r = StyleSheet { doc_defaults: None, styles: Vec::new() };
        proof {
            assert(styles_map(r.styles@) =~= Map::<Seq<char>, StyleModel>::empty());
        }
        r
    }

    /// Adds `style` under its id, replacing any style with that id.
    pub fn insert(&mut self, style: Style)
        requires
            old(self).wf(),
        ensures
            final(self).wf(),
            final(self)@.doc_defaults == old(self)@.doc_defaults,
            final(self)@.styles == old(self)@.styles.insert(style.style_id@, style@),
    {
        let ghost s = style;
        match find_style(&self.styles, style.style_id.as_str()) {
            Some(i) => {
                proof {
                    lemma_map_update(self.styles@, i as int, s);
                }
                self.styles.set(i, style);
            },
            None => {
                proof {
                    lemma_map_push(self.styles@, s);
                }
                self.styles.push(style);
            },
        }
    }

    /// The style with id `id`.
    pub fn get(&self, id: &str) -> (r: Option<&Style>)
        requires
            self.wf(),
        ensures
            match r {
                Some(st) => self@.styles.contains_key(id@) && self@.styles[id@] == st@
                    && st.style_id@ == id@,
                None => !self@.styles.contains_key(id@),
            },
    {
        match find_style(&self.styles, id) {
            Some(i) => Some(&self.styles[i]),
            None => None,
        }
    }

    /// The number of styles.
    pub fn style_count(&self) -> (r: usize)
        requires
            self.wf(),
        ensures
            r == self@.styles.dom().len(),
    {
        proof {
            let v = self.styles@;
            let keys = v.map_values(|st: Style| st.style_id@);
            assert(keys.no_duplicates()) by {
                assert forall|i: int, j: int|
                    0 <= i < keys.len() && 0 <= j < keys.len() && i != j implies keys[i]
                    != keys[j] by {
                    assert(v[i].style_id@ != v[j].style_id@);
                }
            }
            keys.unique_seq_to_set();
            assert(styles_map(v).dom() =~= keys.to_set()) by {
                assert forall|k: Seq<char>| styles_map(v).dom().contains(k) implies keys.to_set().contains(k) by {
                    let i = choose|i: int| 0 <= i < v.len() && v[i].style_id@ == k;
                    assert(keys[i] == k);
                }
                assert forall|k: Seq<char>| keys.to_set().contains(k) implies styles_map(v).dom().contains(k) by {
                    let i = choose|i: int| 0 <= i < keys.len() && keys[i] == k;
                    assert(v[i].style_id@ == k);
                }
            }
        }
        self.styles.len()
    }

    /// The indices of the chain of `id`, most specific style first.
    fn chain_indices(&self, id: &str) -> (r: Vec<usize>)
        requires
            self.wf(),
        ensures
            forall|k: int| 0 <= k < r@.len() ==> r@[k] < self.styles@.len(),
            idx_models(self.styles@, r@) == style_chain(self@.styles, id@),
    {
        let ghost m = self@.styles;
        let mut out: Vec<usize> = Vec::new();
        let mut cur = find_style(&self.styles, id);
        loop
            invariant
                self.wf(),
                m == self@.styles,
                out@.len() <= 20,
                forall|k: int| 0 <= k < out@.len() ==> out@[k] < self.styles@.len(),
                cur matches Some(i) ==> i < self.styles@.len(),
                style_chain(m, id@) == idx_models(self.styles@, out@) + match cur {
                    Some(i) => chain_up(m, self.styles@[i as int].style_id@, (20 - out@.len()) as nat),
                    None => Seq::empty(),
                },
            decreases 20 - out@.len(),
        {
            let i = match cur {
                Some(i) => i,
                None => {
                    proof {
                        assert(idx_models(self.styles@, out@) + Seq::<StyleModel>::empty()
                            =~= idx_models(self.styles@, out@));
                    }
                    return out;
                },
            };
            if out.len() >= 20 {
                proof {
                    assert(idx_models(self.styles@, out@) + Seq::<StyleModel>::empty()
                            =~= idx_models(self.styles@, out@));
                }
                return out;
            }
            let ghost before = out@;
            let ghost n = (20 - out@.len()) as nat;
            proof {
                lemma_map_at(self.styles@, i as int);
            }
            out.push(i);
            cur = match &self.styles[i].based_on {
                Some(b) => find_style(&self.styles, b.as_str()),
                None => None,
            };
            proof {
                let st = self.styles@[i as int];
                assert(idx_models(self.styles@, out@) =~= idx_models(self.styles@, before).push(st@));
                let rest = match cur {
                    Some(j) => chain_up(m, self.styles@[j as int].style_id@, (20 - out@.len()) as nat),
                    None => Seq::<StyleModel>::empty(),
                };
                assert(m.contains_key(st.style_id@));
                assert(m[st.style_id@] == st@);
                match st.based_on {
                    Some(b) => {
                        match cur {
                            Some(j) => {
                                assert(self.styles@[j as int].style_id@ == b@);
                            },
                            None => {
                                assert(!m.contains_key(b@));
                                assert(chain_up(m, b@, (n - 1) as nat) =~= Seq::<StyleModel>::empty());
                            },
                        }
                    },
                    None => {},
                }
                assert(chain_up(m, st.style_id@, n) =~= seq![st@] + rest);
                assert(idx_models(self.styles@, before) + chain_up(m, st.style_id@, n)
                    =~= idx_models(self.styles@, out@) + rest);
            }
        }
    }

    /// `out` overlaid by the run properties of the chain of `id`, root
    /// ancestor first.
    fn fold_chain_rpr(&self, out: &mut RunProperties, id: &str)
        requires
            self.wf(),
        ensures
            *final(out) == fold_rpr(*old(out), style_chain(self@.styles, id@)),
    {
        let idx = self.chain_indices(id);
        let ghost up = style_chain(self@.styles, id@);
        let ghost start = *out;
        let mut k: usize = idx.len();
        proof {
            assert(up.take(k as int) =~= up);
        }
        while k > 0
            invariant
                k <= idx@.len(),
                idx@.len() == up.len(),
                forall|j: int| 0 <= j < idx@.len() ==> idx@[j] < self.styles@.len(),
                idx_models(self.styles@, idx@) == up,
                fold_rpr(start, up) == fold_rpr(*out, up.take(k as int)),
            decreases k,
        {
            let st = &self.styles[idx[k - 1]];
            proof {
                assert(up.take(k as int).last() == st@);
                assert(up.take(k as int).drop_last() =~= up.take(k - 1));
            }
            match &st.run_properties {
                Some(rp) => out.overlay(rp),
                None => {},
            }
            k = k - 1;
        }
        proof {
            assert(up.take(0) =~= Seq::<StyleModel>::empty());
        }
    }

    /// `out` overlaid by the paragraph properties of the chain of `id`,
    /// root ancestor first.
    fn fold_chain_ppr(&self, out: &mut ParagraphProperties, id: &str)
        requires
            self.wf(),
        ensures
            final(out)@ == fold_ppr(old(out)@, style_chain(self@.styles, id@)),
    {
        let idx = self.chain_indices(id);
        let ghost up = style_chain(self@.styles, id@);
        let ghost start = out@;
        let mut k: usize = idx.len();
        proof {
            assert(up.take(k as int) =~= up);
        }
        while k > 0
            invariant
                k <= idx@.len(),
                idx@.len() == up.len(),
                forall|j: int| 0 <= j < idx@.len() ==> idx@[j] < self.styles@.len(),
                idx_models(self.styles@, idx@) == up,
                fold_ppr(start, up) == fold_ppr(out@, up.take(k as int)),
            decreases k,
        {
            let st = &self.styles[idx[k - 1]];
            proof {
                assert(up.take(k as int).last() == st@);
                assert(up.take(k as int).drop_last() =~= up.take(k - 1));
            }
            match &st.paragraph_properties {
                Some(pp) => out.overlay(pp),
                None => {},
            }
            k = k - 1;
        }
        proof {
            assert(up.take(0) =~= Seq::<StyleModel>::empty());
        }
    }

    /// The most specific `hidden` value stated along the chain of `id`.
    fn chain_hidden(&self, id: &str) -> (r: Option<bool>)
        requires
            self.wf(),
        ensures
            r == first_hidden(style_chain(self@.styles, id@)),
    {
        let idx = self.chain_indices(id);
        let ghost up = style_chain(self@.styles, id@);
        let mut k: usize = 0;
        proof {
            assert(up.skip(0) =~= up);
        }
        while k < idx.len()
            invariant
                up == style_chain(self@.styles, id@),
                k <= idx@.len(),
                idx@.len() == up.len(),
                forall|j: int| 0 <= j < idx@.len() ==> idx@[j] < self.styles@.len(),
                idx_models(self.styles@, idx@) == up,
                first_hidden(up) == first_hidden(up.skip(k as int)),
            decreases idx@.len() - k,
        {
            let st = &self.styles[idx[k]];
            proof {
                assert(up.skip(k as int)[0] == st@);
                assert(up.skip(k as int).drop_first() =~= up.skip(k + 1));
            }
            match &st.run_properties {
                Some(rp) => match rp.hidden {
                    Some(h) => {
                        proof {
                            assert(st@.run_properties == Some(*rp));
                            assert(up.skip(k as int).len() > 0);
                            assert(first_hidden(up.skip(k as int)) == Some(h));
                        }
                        return Some(h);
                    },
                    None => {},
                },
                None => {},
            }
            k = k + 1;
        }
        proof {
            assert(up.skip(k as int) =~= Seq::<StyleModel>::empty());
        }
        None
    }

    /// The effective run formatting for a run: document defaults, then
    /// the paragraph style chain, then the character style chain named by
    /// the run's `w:rStyle`, then the run's own `w:rPr`; later stages win
    /// field by field.
    pub fn effective_run_properties(
        &self,
        paragraph_style_id: Option<&str>,
        direct: Option<&RunProperties>,
    ) -> (r: RunProperties)
        requires
            self.wf(),
        ensures
            r == effective_rpr(
                self@,
                match paragraph_style_id {
                    Some(s) => Some(s@),
                    None => None,
                },
                match direct {
                    Some(d) => Some(*d),
                    None => None,
                },
            ),
    {
        let mut out = match &self.doc_defaults {
            Some(d) => match &d.run_properties {
                Some(r) => copy_rpr(r),
                None => RunProperties::default(),
            },
            None => RunProperties::default(),
        };
        match paragraph_style_id {
            Some(pid) => self.fold_chain_rpr(&mut out, pid),
            None => {},
        }
        match direct {
            Some(d) => match &d.style_id {
                Some(cid) => self.fold_chain_rpr(&mut out, cid.as_str()),
                None => {},
            },
            None => {},
        }
        match direct {
            Some(d) => out.overlay(d),
            None => {},
        }
        out
    }

    /// Whether a run is hidden (`<w:vanish/>`) once defaults, the
    /// paragraph style chain, the character style chain and the run's own
    /// `w:rPr` are folded with the precedence of
    /// `effective_run_properties`.
    pub fn effective_hidden(
        &self,
        paragraph_style_id: Option<&str>,
        direct: Option<&RunProperties>,
    ) -> (r: bool)
        requires
            self.wf(),
        ensures
            r == effective_hidden_spec(
                self@,
                match paragraph_style_id {
                    Some(s) => Some(s@),
                    None => None,
                },
                match direct {
                    Some(d) => Some(*d),
                    None => None,
                },
            ),
    {
        let mut hidden: Option<bool> = match &self.doc_defaults {
            Some(d) => match &d.run_properties {
                Some(r) => r.hidden,
                None => None,
            },
            None => None,
        };
        match paragraph_style_id {
            Some(pid) => match self.chain_hidden(pid) {
                Some(h) => {
                    hidden = Some(h);
                },
                None => {},
            },
            None => {},
        }
        match direct {
            Some(d) => match &d.style_id {
                Some(cid) => match self.chain_hidden(cid.as_str()) {
                    Some(h) => {
                        hidden = Some(h);
                    },
                    None => {},
                },
                None => {},
            },
            None => {},
        }
        match direct {
            Some(d) => match d.hidden {
                Some(h) => {
                    hidden = Some(h);
                },
                None => {},
            },
            None => {},
        }
        match hidden {
            Some(h) => h,
            None => false,
        }
    }

    /// The effective paragraph formatting: document defaults, then the
    /// style chain of the paragraph's own style, then its own `w:pPr`.
    pub fn effective_paragraph_properties(&self, direct: Option<&ParagraphProperties>) -> (r:
        ParagraphProperties)
        requires
            self.wf(),
        ensures
            r@ == effective_ppr(
                self@,
                match direct {
                    Some(d) => Some(d@),
                    None => None,
                },
            ),
    {
        let mut out = match &self.doc_defaults {
            Some(d) => match &d.paragraph_properties {
                Some(p) => copy_ppr(p),
                None => ParagraphProperties::default(),
            },
            None => ParagraphProperties::default(),
        };
        match direct {
            Some(d) => match &d.style_id {
                Some(pid) => self.fold_chain_ppr(&mut out, pid.as_str()),
                None => {},
            },
            None => {},
        }
        match direct {
            Some(d) => out.overlay(d),
            None => {},
        }
        out
    }

    /// The outline level of the nearest style from `style_id` up its
    /// `basedOn` chain that states one, looking at most 21 styles up.
    pub fn resolve_outline_level(&self, style_id: &str) -> (r: Option<u8>)
        requires
            self.wf(),
        ensures
            r == outline_up(self@.styles, style_id@, 21),
    {
        let ghost m = self@.styles;
        let mut current = find_style(&self.styles, style_id);
        let mut depth: usize = 0;
        loop
            invariant
                self.wf(),
                m == self@.styles,
                depth <= 21,
                current matches Some(i) ==> i < self.styles@.len(),
                outline_up(m, style_id@, 21) == match current {
                    Some(i) => outline_up(m, self.styles@[i as int].style_id@, (21 - depth) as nat),
                    None => None,
                },
            decreases 21 - depth,
        {
            let i = match current {
                Some(i) => i,
                None => {
                    return None;
                },
            };
            if depth > 20 {
                return None;
            }
            proof {
                lemma_map_at(self.styles@, i as int);
            }
            let st = &self.styles[i];
            match &st.paragraph_properties {
                Some(pp) => match pp.outline_level {
                    Some(l) => {
                        return Some(l);
                    },
                    None => {},
                },
                None => {},
            }
            let ghost bo = st.based_on;
            current = match &st.based_on {
                Some(b) => find_style(&self.styles, b.as_str()),
                None => None,
            };
            proof {
                match bo {
                    Some(b) => {
                        match current {
                            Some(j) => {
                                assert(self.styles@[j as int].style_id@ == b@);
                            },
                            None => {
                                assert(!m.contains_key(b@));
                                assert(outline_up(m, b@, (20 - depth) as nat) is None);
                            },
                        }
                    },
                    None => {},
                }
            }
            depth = depth + 1;
        }
    }
}

/// The style kind a `w:type` value names; paragraph where it is absent
/// or unknown.
pub open spec fn style_type_of(t: XmlTag) -> StyleType {
    match attr(t, "w:type"@) {
        Some(v) => if v == "paragraph"@ {
            StyleType::Paragraph
        } else if v == "character"@ {
            StyleType::Character
        } else if v == "table"@ {
            StyleType::Table
        } else if v == "numbering"@ {
            StyleType::Numbering
        } else {
            StyleType::Paragraph
        },
        None => StyleType::Paragraph,
    }
}

/// What a `w:name` or `w:basedOn` child does to the style read so far.
pub open spec fn style_attr_tag(st: StyleModel, t: XmlTag) -> StyleModel {
    if t.name@ == "name"@ {
        match attr_str(t, "w:val"@) {
            Some(v) => StyleModel { name: Some(v), ..st },
            None => st,
        }
    } else if t.name@ == "basedOn"@ {
        match attr_str(t, "w:val"@) {
            Some(v) => StyleModel { based_on: Some(v), ..st },
            None => st,
        }
    } else {
        st
    }
}

/// Reading the children of a `w:style` element from `pos` on, up to
/// `</w:style>`: its name, parent, run and paragraph properties.
pub open spec fn style_scan(ev: Seq<XmlEvent>, pos: int, st: StyleModel) -> Result<
    (StyleModel, int),
    InvalidNumber,
>
    decreases ev.len() - pos,
{
    if pos < 0 || pos >= ev.len() {
        Ok((st, pos))
    } else {
        match ev[pos] {
            XmlEvent::Start(t) => {
                if t.name@ == "rPr"@ {
                    match rpr_scan(ev, pos + 1, rpr_empty()) {
                        Err(e) => Err(e),
                        Ok((r, next)) => {
                            proof {
                                lemma_rpr_scan(ev, pos + 1, rpr_empty());
                            }
                            style_scan(ev, next, StyleModel { run_properties: Some(r), ..st })
                        },
                    }
                } else if t.name@ == "pPr"@ {
                    match ppr_scan(ev, pos + 1, ppr_empty()) {
                        Err(e) => Err(e),
                        Ok((p, next)) => {
                            proof {
                                lemma_ppr_scan(ev, pos + 1, ppr_empty());
                            }
                            style_scan(
                                ev,
                                next,
                                StyleModel { paragraph_properties: Some(p), ..st },
                            )
                        },
                    }
                } else {
                    proof {
                        lemma_skip_end(ev, pos + 1, 1);
                    }
                    style_scan(ev, skip_end(ev, pos + 1, 1), style_attr_tag(st, t))
                }
            },
            XmlEvent::Empty(t) => style_scan(ev, pos + 1, style_attr_tag(st, t)),
            XmlEvent::End(n) => if n@ == "style"@ {
                Ok((st, pos + 1))
            } else {
                style_scan(ev, pos + 1, st)
            },
            XmlEvent::Eof => Ok((st, pos)),
            _ => style_scan(ev, pos + 1, st),
        }
    }
}

pub proof fn lemma_style_scan(ev: Seq<XmlEvent>, pos: int, st: StyleModel)
    requires
        0 <= pos <= ev.len(),
    ensures
        style_scan(ev, pos, st) matches Ok((_, n)) ==> pos <= n <= ev.len(),
    decreases ev.len() - pos,
{
    if pos < ev.len() {
        match ev[pos] {
            XmlEvent::Start(t) => {
                if t.name@ == "rPr"@ {
                    lemma_rpr_scan(ev, pos + 1, rpr_empty());
                    if let Ok((r, next)) = rpr_scan(ev, pos + 1, rpr_empty()) {
                        lemma_style_scan(ev, next, StyleModel { run_properties: Some(r), ..st });
                    }
                } else if t.name@ == "pPr"@ {
                    lemma_ppr_scan(ev, pos + 1, ppr_empty());
                    if let Ok((p, next)) = ppr_scan(ev, pos + 1, ppr_empty()) {
                        lemma_style_scan(
                            ev,
                            next,
                            StyleModel { paragraph_properties: Some(p), ..st },
                        );
                    }
                } else {
                    lemma_skip_end(ev, pos + 1, 1);
                    lemma_style_scan(ev, skip_end(ev, pos + 1, 1), style_attr_tag(st, t));
                }
            },
            XmlEvent::Empty(t) => lemma_style_scan(ev, pos + 1, style_attr_tag(st, t)),
            XmlEvent::End(n) => {
                if n@ != "style"@ {
                    lemma_style_scan(ev, pos + 1, st);
                }
            },
            XmlEvent::Eof => {},
            _ => lemma_style_scan(ev, pos + 1, st),
        }
    }
}

/// A style with nothing read yet but its kind.
pub open spec fn style_start(t: XmlTag) -> StyleModel {
    StyleModel {
        style_type: style_type_of(t),
        name: None,
        based_on: None,
        run_properties: None,
        paragraph_properties: None,
        table_properties: None,
    }
}

/// Reading the children of `w:rPrDefault` (`inner` the run property
/// element, `outer` the wrapper) or of `w:pPrDefault`: the last `w:rPr`
/// (resp. `w:pPr`) read.
pub open spec fn nested_rpr_scan(ev: Seq<XmlEvent>, pos: int, res: Option<RunProperties>) -> Result<
    (Option<RunProperties>, int),
    InvalidNumber,
>
    decreases ev.len() - pos,
{
    if pos < 0 || pos >= ev.len() {
        Ok((res, pos))
    } else {
        match ev[pos] {
            XmlEvent::Start(t) => if t.name@ == "rPr"@ {
                match rpr_scan(ev, pos + 1, rpr_empty()) {
                    Err(e) => Err(e),
                    Ok((r, next)) => {
                        proof {
                            lemma_rpr_scan(ev, pos + 1, rpr_empty());
                        }
                        nested_rpr_scan(ev, next, Some(r))
                    },
                }
            } else {
                proof {
                    lemma_skip_end(ev, pos + 1, 1);
                }
                nested_rpr_scan(ev, skip_end(ev, pos + 1, 1), res)
            },
            XmlEvent::End(n) => if n@ == "rPrDefault"@ {
                Ok((res, pos + 1))
            } else {
                nested_rpr_scan(ev, pos + 1, res)
            },
            XmlEvent::Eof => Ok((res, pos)),
            _ => nested_rpr_scan(ev, pos + 1, res),
        }
    }
}

/// Reading the children of `w:pPrDefault`: the last `w:pPr` read.
pub open spec fn nested_ppr_scan(ev: Seq<XmlEvent>, pos: int, res: Option<PprModel>) -> Result<
    (Option<PprModel>, int),
    InvalidNumber,
>
    decreases ev.len() - pos,
{
    if pos < 0 || pos >= ev.len() {
        Ok((res, pos))
    } else {
        match ev[pos] {
            XmlEvent::Start(t) => if t.name@ == "pPr"@ {
                match ppr_scan(ev, pos + 1, ppr_empty()) {
                    Err(e) => Err(e),
                    Ok((p, next)) => {
                        proof {
                            lemma_ppr_scan(ev, pos + 1, ppr_empty());
                        }
                        nested_ppr_scan(ev, next, Some(p))
                    },
                }
            } else {
                proof {
                    lemma_skip_end(ev, pos + 1, 1);
                }
                nested_ppr_scan(ev, skip_end(ev, pos + 1, 1), res)
            },
            XmlEvent::End(n) => if n@ == "pPrDefault"@ {
                Ok((res, pos + 1))
            } else {
                nested_ppr_scan(ev, pos + 1, res)
            },
            XmlEvent::Eof => Ok((res, pos)),
            _ => nested_ppr_scan(ev, pos + 1, res),
        }
    }
}

pub proof fn lemma_nested_scans(ev: Seq<XmlEvent>, pos: int, r: Option<RunProperties>, p: Option<PprModel>)
    requires
        0 <= pos <= ev.len(),
    ensures
        nested_rpr_scan(ev, pos, r) matches Ok((_, n)) ==> pos <= n <= ev.len(),
        nested_ppr_scan(ev, pos, p) matches Ok((_, n)) ==> pos <= n <= ev.len(),
    decreases ev.len() - pos,
{
    if pos < ev.len() {
        match ev[pos] {
            XmlEvent::Start(t) => {
                lemma_skip_end(ev, pos + 1, 1);
                lemma_rpr_scan(ev, pos + 1, rpr_empty());
                lemma_ppr_scan(ev, pos + 1, ppr_empty());
                let r2 = if t.name@ == "rPr"@ {
                    match rpr_scan(ev, pos + 1, rpr_empty()) {
                        Ok((x, next)) => (Some(x), next),
                        Err(_) => (r, pos + 1),
                    }
                } else {
                    (r, skip_end(ev, pos + 1, 1))
                };
                let p2 = if t.name@ == "pPr"@ {
                    match ppr_scan(ev, pos + 1, ppr_empty()) {
                        Ok((x, next)) => (Some(x), next),
                        Err(_) => (p, pos + 1),
                    }
                } else {
                    (p, skip_end(ev, pos + 1, 1))
                };
                lemma_nested_scans(ev, r2.1, r2.0, p);
                lemma_nested_scans(ev, p2.1, r, p2.0);
            },
            XmlEvent::End(n) => {
                lemma_nested_scans(ev, pos + 1, r, p);
            },
            XmlEvent::Eof => {},
            _ => lemma_nested_scans(ev, pos + 1, r, p),
        }
    }
}

/// Reading the children of `w:docDefaults` from `pos` on, up to
/// `</w:docDefaults>`.
pub open spec fn defaults_scan(ev: Seq<XmlEvent>, pos: int, d: DefaultsModel) -> Result<
    (DefaultsModel, int),
    InvalidNumber,
>
    decreases ev.len() - pos,
{
    if pos < 0 || pos >= ev.len() {
        Ok((d, pos))
    } else {
        match ev[pos] {
            XmlEvent::Start(t) => if t.name@ == "rPrDefault"@ {
                match nested_rpr_scan(ev, pos + 1, None) {
                    Err(e) => Err(e),
                    Ok((r, next)) => {
                        proof {
                            lemma_nested_scans(ev, pos + 1, None, None);
                        }
                        defaults_scan(ev, next, DefaultsModel { run_properties: r, ..d })
                    },
                }
            } else if t.name@ == "pPrDefault"@ {
                match nested_ppr_scan(ev, pos + 1, None) {
                    Err(e) => Err(e),
                    Ok((p, next)) => {
                        proof {
                            lemma_nested_scans(ev, pos + 1, None, None);
                        }
                        defaults_scan(ev, next, DefaultsModel { paragraph_properties: p, ..d })
                    },
                }
            } else {
                proof {
                    lemma_skip_end(ev, pos + 1, 1);
                }
                defaults_scan(ev, skip_end(ev, pos + 1, 1), d)
            },
            XmlEvent::End(n) => if n@ == "docDefaults"@ {
                Ok((d, pos + 1))
            } else {
                defaults_scan(ev, pos + 1, d)
            },
            XmlEvent::Eof => Ok((d, pos)),
            _ => defaults_scan(ev, pos + 1, d),
        }
    }
}

pub proof fn lemma_defaults_scan(ev: Seq<XmlEvent>, pos: int, d: DefaultsModel)
    requires
        0 <= pos <= ev.len(),
    ensures
        defaults_scan(ev, pos, d) matches Ok((_, n)) ==> pos <= n <= ev.len(),
    decreases ev.len() - pos,
{
    if pos < ev.len() {
        match ev[pos] {
            XmlEvent::Start(t) => {
                lemma_nested_scans(ev, pos + 1, None, None);
                lemma_skip_end(ev, pos + 1, 1);
                if t.name@ == "rPrDefault"@ {
                    if let Ok((r, next)) = nested_rpr_scan(ev, pos + 1, None) {
                        lemma_defaults_scan(ev, next, DefaultsModel { run_properties: r, ..d });
                    }
                } else if t.name@ == "pPrDefault"@ {
                    if let Ok((p, next)) = nested_ppr_scan(ev, pos + 1, None) {
                        lemma_defaults_scan(
                            ev,
                            next,
                            DefaultsModel { paragraph_properties: p, ..d },
                        );
                    }
                } else {
                    lemma_defaults_scan(ev, skip_end(ev, pos + 1, 1), d);
                }
            },
            XmlEvent::End(n) => {
                if n@ != "docDefaults"@ {
                    lemma_defaults_scan(ev, pos + 1, d);
                }
            },
            XmlEvent::Eof => {},
            _ => lemma_defaults_scan(ev, pos + 1, d),
        }
    }
}

/// Reading `styles.xml` from `pos` on: each `w:docDefaults` element sets
/// the defaults, each `w:style` element with a `w:styleId` adds a style
/// (replacing one with the same id); every other event is passed over,
/// so a style without an id is read no further than its tag.
pub open spec fn sheet_scan(ev: Seq<XmlEvent>, pos: int, m: SheetModel) -> Result<
    SheetModel,
    InvalidNumber,
>
    decreases ev.len() - pos,
{
    if pos < 0 || pos >= ev.len() {
        Ok(m)
    } else {
        match ev[pos] {
            XmlEvent::Start(t) => if t.name@ == "docDefaults"@ {
                match defaults_scan(
                    ev,
                    pos + 1,
                    DefaultsModel { run_properties: None, paragraph_properties: None },
                ) {
                    Err(e) => Err(e),
                    Ok((d, next)) => {
                        proof {
                            lemma_defaults_scan(
                                ev,
                                pos + 1,
                                DefaultsModel { run_properties: None, paragraph_properties: None },
                            );
                        }
                        sheet_scan(ev, next, SheetModel { doc_defaults: Some(d), ..m })
                    },
                }
            } else if t.name@ == "style"@ {
                match attr_str(t, "w:styleId"@) {
                    None => sheet_scan(ev, pos + 1, m),
                    Some(id) => match style_scan(ev, pos + 1, style_start(t)) {
                        Err(e) => Err(e),
                        Ok((st, next)) => {
                            proof {
                                lemma_style_scan(ev, pos + 1, style_start(t));
                            }
                            sheet_scan(
                                ev,
                                next,
                                SheetModel { styles: m.styles.insert(id@, st), ..m },
                            )
                        },
                    },
                }
            } else {
                sheet_scan(ev, pos + 1, m)
            },
            XmlEvent::Eof => Ok(m),
            _ => sheet_scan(ev, pos + 1, m),
        }
    }
}

/// A stylesheet with nothing read yet.
pub open spec fn sheet_empty() -> SheetModel {
    SheetModel { doc_defaults: None, styles: Map::empty() }
}

fn apply_style_attr_tag(name: &mut Option<String>, based_on: &mut Option<String>, t: &XmlTag)
    ensures
        ({
            let st = StyleModel {
                style_type: StyleType::Paragraph,
                name: *old(name),
                based_on: *old(based_on),
                run_properties: None,
                paragraph_properties: None,
                table_properties: None,
            };
            let st2 = style_attr_tag(st, *t);
            *final(name) == st2.name && *final(based_on) == st2.based_on
        }),
{
    if is_named(t, "name") {
        match get_attr(t, "w:val") {
            Some(v) => {
                *name = Some(v);
            },
            None => {},
        }
    } else if is_named(t, "basedOn") {
        match get_attr(t, "w:val") {
            Some(v) => {
                *based_on = Some(v);
            },
            None => {},
        }
    }
}

fn parse_style_type(t: &XmlTag) -> (r: StyleType)
    ensures
        r == style_type_of(*t),
{
    match get_attr(t, "w:type") {
        Some(v) => {
            let s = v.as_str();
            if str_eq(s, "paragraph") {
                StyleType::Paragraph
            } else if str_eq(s, "character") {
                StyleType::Character
            } else if str_eq(s, "table") {
                StyleType::Table
            } else if str_eq(s, "numbering") {
                StyleType::Numbering
            } else {
                StyleType::Paragraph
            }
        },
        None => StyleType::Paragraph,
    }
}

/// Reads a `w:style` element whose start tag `start` was read just before
/// `pos`; `None`, with nothing read, where it has no `w:styleId`.
pub fn parse_style(ev: &[XmlEvent], pos: usize, start: &XmlTag) -> (r: Result<
    (Option<Style>, usize),
    InvalidNumber,
>)
    requires
        pos <= ev@.len(),
        ev@.len() < usize::MAX,
    ensures
        match attr_str(*start, "w:styleId"@) {
            None => r == Ok::<(Option<Style>, usize), InvalidNumber>((None, pos)),
            Some(id) => match style_scan(ev@, pos as int, style_start(*start)) {
                Ok((st, next)) => r matches Ok((Some(s), n)) && s@ == st && s.style_id == id && n
                    == next,
                Err(e) => r == Err::<(Option<Style>, usize), InvalidNumber>(e),
            },
        },
{
    let style_id = match get_attr(start, "w:styleId") {
        Some(id) => id,
        None => {
            return Ok((None, pos));
        },
    };
    let style_type = parse_style_type(start);
    let ghost init = style_start(*start);
    let mut name: Option<String> = None;
    let mut based_on: Option<String> = None;
    let mut run_properties: Option<RunProperties> = None;
    let mut paragraph_properties: Option<ParagraphProperties> = None;
    let n = ev.len();
    let mut p: usize = pos;
    while p < n
        invariant
            n == ev@.len(),
            n < usize::MAX,
            pos <= p <= n,
            attr_str(*start, "w:styleId"@) == Some(style_id),
            init == style_start(*start),
            style_scan(ev@, pos as int, init) == style_scan(
                ev@,
                p as int,
                StyleModel {
                    style_type,
                    name,
                    based_on,
                    run_properties,
                    paragraph_properties: opt_ppr(paragraph_properties),
                    table_properties: None,
                },
            ),
        decreases n - p,
    {
        match &ev[p] {
            XmlEvent::Start(t) => {
                if is_named(t, "rPr") {
                    proof {
                        lemma_rpr_scan(ev@, p + 1, rpr_empty());
                    }
                    let (rp, next) = parse_run_properties_fast(ev, p + 1)?;
                    run_properties = Some(rp);
                    p = next;
                } else if is_named(t, "pPr") {
                    proof {
                        lemma_ppr_scan(ev@, p + 1, ppr_empty());
                    }
                    let (pp, next) = parse_paragraph_properties_fast(ev, p + 1)?;
                    paragraph_properties = Some(pp);
                    p = next;
                } else {
                    apply_style_attr_tag(&mut name, &mut based_on, t);
                    p = skip_element(ev, p + 1);
                }
            },
            XmlEvent::Empty(t) => {
                apply_style_attr_tag(&mut name, &mut based_on, t);
                p = p + 1;
            },
            XmlEvent::End(e) => {
                if str_eq(e.as_str(), "style") {
                    return Ok(
                        (
                            Some(
                                Style {
                                    style_id,
                                    style_type,
                                    name,
                                    based_on,
                                    run_properties,
                                    paragraph_properties,
                                    table_properties: None,
                                },
                            ),
                            p + 1,
                        ),
                    );
                }
                p = p + 1;
            },
            XmlEvent::Eof => {
                return Ok(
                    (
                        Some(
                            Style {
                                style_id,
                                style_type,
                                name,
                                based_on,
                                run_properties,
                                paragraph_properties,
                                table_properties: None,
                            },
                        ),
                        p,
                    ),
                );
            },
            _ => {
                p = p + 1;
            },
        }
    }
    Ok(
        (
            Some(
                Style {
                    style_id,
                    style_type,
                    name,
                    based_on,
                    run_properties,
                    paragraph_properties,
                    table_properties: None,
                },
            ),
            p,
        ),
    )
}

/// Reads the children of a `w:rPrDefault` element.
fn parse_nested_rpr(ev: &[XmlEvent], pos: usize) -> (r: Result<
    (Option<RunProperties>, usize),
    InvalidNumber,
>)
    requires
        pos <= ev@.len(),
        ev@.len() < usize::MAX,
    ensures
        match r {
            Ok((x, n)) => nested_rpr_scan(ev@, pos as int, None) == Ok::<
                (Option<RunProperties>, int),
                InvalidNumber,
            >((x, n as int)),
            Err(e) => nested_rpr_scan(ev@, pos as int, None) == Err::<
                (Option<RunProperties>, int),
                InvalidNumber,
            >(e),
        },
{
    let n = ev.len();
    let mut res: Option<RunProperties> = None;
    let mut p: usize = pos;
    while p < n
        invariant
            n == ev@.len(),
            n < usize::MAX,
            pos <= p <= n,
            nested_rpr_scan(ev@, pos as int, None) == nested_rpr_scan(ev@, p as int, res),
        decreases n - p,
    {
        match &ev[p] {
            XmlEvent::Start(t) => {
                if is_named(t, "rPr") {
                    proof {
                        lemma_rpr_scan(ev@, p + 1, rpr_empty());
                    }
                    let (rp, next) = parse_run_properties_fast(ev, p + 1)?;
                    res = Some(rp);
                    p = next;
                } else {
                    p = skip_element(ev, p + 1);
                }
            },
            XmlEvent::End(e) => {
                if str_eq(e.as_str(), "rPrDefault") {
                    return Ok((res, p + 1));
                }
                p = p + 1;
            },
            XmlEvent::Eof => {
                return Ok((res, p));
            },
            _ => {
                p = p + 1;
            },
        }
    }
    Ok((res, p))
}

/// Reads the children of a `w:pPrDefault` element.
fn parse_nested_ppr(ev: &[XmlEvent], pos: usize) -> (r: Result<
    (Option<ParagraphProperties>, usize),
    InvalidNumber,
>)
    requires
        pos <= ev@.len(),
        ev@.len() < usize::MAX,
    ensures
        match r {
            Ok((x, n)) => nested_ppr_scan(ev@, pos as int, None) == Ok::<
                (Option<PprModel>, int),
                InvalidNumber,
            >((opt_ppr(x), n as int)),
            Err(e) => nested_ppr_scan(ev@, pos as int, None) == Err::<
                (Option<PprModel>, int),
                InvalidNumber,
            >(e),
        },
{
    let n = ev.len();
    let mut res: Option<ParagraphProperties> = None;
    let mut p: usize = pos;
    while p < n
        invariant
            n == ev@.len(),
            n < usize::MAX,
            pos <= p <= n,
            nested_ppr_scan(ev@, pos as int, None) == nested_ppr_scan(ev@, p as int, opt_ppr(res)),
        decreases n - p,
    {
        match &ev[p] {
            XmlEvent::Start(t) => {
                if is_named(t, "pPr") {
                    proof {
                        lemma_ppr_scan(ev@, p + 1, ppr_empty());
                    }
                    let (pp, next) = parse_paragraph_properties_fast(ev, p + 1)?;
                    res = Some(pp);
                    p = next;
                } else {
                    p = skip_element(ev, p + 1);
                }
            },
            XmlEvent::End(e) => {
                if str_eq(e.as_str(), "pPrDefault") {
                    return Ok((res, p + 1));
                }
                p = p + 1;
            },
            XmlEvent::Eof => {
                return Ok((res, p));
            },
            _ => {
                p = p + 1;
            },
        }
    }
    Ok((res, p))
}

/// Reads the children of a `w:docDefaults` element.
fn parse_doc_defaults(ev: &[XmlEvent], pos: usize) -> (r: Result<(DocDefaults, usize), InvalidNumber>)
    requires
        pos <= ev@.len(),
        ev@.len() < usize::MAX,
    ensures
        match r {
            Ok((d, n)) => defaults_scan(
                ev@,
                pos as int,
                DefaultsModel { run_properties: None, paragraph_properties: None },
            ) == Ok::<(DefaultsModel, int), InvalidNumber>((d@, n as int)),
            Err(e) => defaults_scan(
                ev@,
                pos as int,
                DefaultsModel { run_properties: None, paragraph_properties: None },
            ) == Err::<(DefaultsModel, int), InvalidNumber>(e),
        },
{
    let n = ev.len();
    let mut d = DocDefaults { run_properties: None, paragraph_properties: None };
    let mut p: usize = pos;
    while p < n
        invariant
            n == ev@.len(),
            n < usize::MAX,
            pos <= p <= n,
            defaults_scan(
                ev@,
                pos as int,
                DefaultsModel { run_properties: None, paragraph_properties: None },
            ) == defaults_scan(ev@, p as int, d@),
        decreases n - p,
    {
        match &ev[p] {
            XmlEvent::Start(t) => {
                if is_named(t, "rPrDefault") {
                    proof {
                        lemma_nested_scans(ev@, p + 1, None, None);
                    }
                    let (rp, next) = parse_nested_rpr(ev, p + 1)?;
                    d.run_properties = rp;
                    p = next;
                } else if is_named(t, "pPrDefault") {
                    proof {
                        lemma_nested_scans(ev@, p + 1, None, None);
                    }
                    let (pp, next) = parse_nested_ppr(ev, p + 1)?;
                    d.paragraph_properties = pp;
                    p = next;
                } else {
                    p = skip_element(ev, p + 1);
                }
            },
            XmlEvent::End(e) => {
                if str_eq(e.as_str(), "docDefaults") {
                    return Ok((d, p + 1));
                }
                p = p + 1;
            },
            XmlEvent::Eof => {
                return Ok((d, p));
            },
            _ => {
                p = p + 1;
            },
        }
    }
    Ok((d, p))
}

/// Why `styles.xml` could not be read.
#[derive(Debug, Clone, Copy, PartialEq, Eq)]
pub enum StyleSheetError {
    /// The XML itself is malformed.
    Xml,
    /// A measurement attribute does not hold a number.
    InvalidNumber,
}

impl StyleSheet {
    /// The stylesheet the events of `styles.xml` describe.
    pub fn from_events(ev: &[XmlEvent]) -> (r: Result<StyleSheet, InvalidNumber>)
        requires
            ev@.len() < usize::MAX,
        ensures
            match r {
                Ok(s) => s.wf() && sheet_scan(ev@, 0, sheet_empty()) == Ok::<
                    SheetModel,
                    InvalidNumber,
                >(s@),
                Err(e) => sheet_scan(ev@, 0, sheet_empty()) == Err::<SheetModel, InvalidNumber>(
                    e,
                ),
            },
    {
        let n = ev.len();
        let mut sheet = StyleSheet::new();
        proof {
            assert(sheet@ =~= sheet_empty());
        }
        let mut p: usize = 0;
        while p < n
            invariant
                n == ev@.len(),
                n < usize::MAX,
                p <= n,
                sheet.wf(),
                sheet_scan(ev@, 0, sheet_empty()) == sheet_scan(ev@, p as int, sheet@),
            decreases n - p,
        {
            match &ev[p] {
                XmlEvent::Start(t) => {
                    if is_named(t, "docDefaults") {
                        proof {
                            lemma_defaults_scan(
                                ev@,
                                p + 1,
                                DefaultsModel { run_properties: None, paragraph_properties: None },
                            );
                        }
                        let (d, next) = parse_doc_defaults(ev, p + 1)?;
                        let ghost before = sheet@;
                        sheet.doc_defaults = Some(d);
                        proof {
                            assert(sheet@ =~= SheetModel { doc_defaults: Some(d@), ..before });
                        }
                        p = next;
                    } else if is_named(t, "style") {
                        proof {
                            lemma_style_scan(ev@, p + 1, style_start(*t));
                        }
                        match parse_style(ev, p + 1, t)? {
                            (Some(st), next) => {
                                sheet.insert(st);
                                p = next;
                            },
                            (None, _) => {
                                p = p + 1;
                            },
                        }
                    } else {
                        p = p + 1;
                    }
                },
                XmlEvent::Eof => {
                    return Ok(sheet);
                },
                _ => {
                    p = p + 1;
                },
            }
        }
        Ok(sheet)
    }

    /// Reads `word/styles.xml`: the document defaults and every style
    /// with an id, read from the document's events.
    pub fn parse(xml_data: &[u8]) -> (r: Result<StyleSheet, StyleSheetError>)
        ensures
            r matches Ok(s) ==> s.wf(),
            match xml_events_of(xml_data@) {
                None => r matches Err(StyleSheetError::Xml),
                Some(evm) => exists|ev: Seq<XmlEvent>|
                    #![trigger sheet_scan(ev, 0, sheet_empty())]
                    event_models(ev) == evm && well_ended(ev) && match sheet_scan(ev, 0, sheet_empty()) {
                        Ok(m) => r matches Ok(s) && s@ == m,
                        Err(_) => r matches Err(StyleSheetError::InvalidNumber),
                    },
            },
    {
        let events = match read_xml_events(xml_data) {
            Ok(ev) => ev,
            Err(_) => {
                return Err(StyleSheetError::Xml);
            },
        };
        match StyleSheet::from_events(events.as_slice()) {
            Ok(s) => Ok(s),
            Err(_) => Err(StyleSheetError::InvalidNumber),
        }
    }
}

} // verus!
