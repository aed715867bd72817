use vstd::prelude::*;

use crate::parser::document::{
    parse_xml_document, parsed_xml, XmlAttribute, XmlAttributeView, XmlDocument, XmlDocumentView,
};
use crate::text::{
    collapse_whitespace, lemma_collapse_ignores_white_space_runs, replace_whitespace_runs,
    same_but_white_space_runs, split_by, split_on_any, str_eq,
};

verus! {

// ---------------------------------------------------------------------------
// The records a filing is read into.
// ---------------------------------------------------------------------------

/// An explicit dimension member of a context (`dimension="ns:key"`, text
/// `ns:member`).
#[derive(Clone, Debug)]
pub struct Dimension {
    pub key_ns: String,
    pub key_value: String,
    pub member_ns: String,
    pub member_value: String,
}

/// A measure of a unit, with the name of the element that holds it.
#[derive(Clone, Debug)]
pub struct Unit {
    pub unit_type: String,
    pub unit_value: String,
}

/// A date of a context's period (`instant`, `startDate` or `endDate`).
#[derive(Clone, Debug)]
pub struct Period {
    pub period_type: String,
    pub period_value: String,
}

/// One reported fact, with the units, dimensions and periods that its
/// `unitRef` and `contextRef` point to.
#[derive(Clone, Debug)]
pub struct FactItem {
    pub id: String,
    pub prefix: String,
    pub name: String,
    pub value: String,
    pub decimals: String,
    pub context_ref: Option<String>,
    pub unit_ref: Option<String>,
    pub dimensions: Vec<Dimension>,
    pub units: Vec<Unit>,
    pub periods: Vec<Period>,
}

pub struct DimensionView {
    pub key_ns: Seq<char>,
    pub key_value: Seq<char>,
    pub member_ns: Seq<char>,
    pub member_value: Seq<char>,
}

pub struct UnitView {
    pub unit_type: Seq<char>,
    pub unit_value: Seq<char>,
}

pub struct PeriodView {
    pub period_type: Seq<char>,
    pub period_value: Seq<char>,
}

pub struct FactItemView {
    pub id: Seq<char>,
    pub prefix: Seq<char>,
    pub name: Seq<char>,
    pub value: Seq<char>,
    pub decimals: Seq<char>,
    pub context_ref: Option<Seq<char>>,
    pub unit_ref: Option<Seq<char>>,
    pub dimensions: Seq<DimensionView>,
    pub units: Seq<UnitView>,
    pub periods: Seq<PeriodView>,
}

impl DeepView for Dimension {
    type V = DimensionView;

    open spec fn deep_view(&self) -> DimensionView {
        DimensionView {
            key_ns: self.key_ns@,
            key_value: self.key_value@,
            member_ns: self.member_ns@,
            member_value: self.member_value@,
        }
    }
}

impl DeepView for Unit {
    type V = UnitView;

    open spec fn deep_view(&self) -> UnitView {
        UnitView { unit_type: self.unit_type@, unit_value: self.unit_value@ }
    }
}

impl DeepView for Period {
    type V = PeriodView;

    open spec fn deep_view(&self) -> PeriodView {
        PeriodView { period_type: self.period_type@, period_value: self.period_value@ }
    }
}

impl DeepView for FactItem {
    type V = FactItemView;

    open spec fn deep_view(&self) -> FactItemView {
        FactItemView {
            id: self.id@,
            prefix: self.prefix@,
            name: self.name@,
            value: self.value@,
            decimals: self.decimals@,
            context_ref: self.context_ref.deep_view(),
            unit_ref: self.unit_ref.deep_view(),
            dimensions: self.dimensions.deep_view(),
            units: self.units.deep_view(),
            periods: self.periods.deep_view(),
        }
    }
}

/// Values that can be copied field by field into an equal value.
pub trait Duplicate: DeepView + Sized {
    fn duplicate(&self) -> (r: Self)
        ensures
            r.deep_view() == self.deep_view(),
    ;
}

impl Duplicate for Dimension {
    fn duplicate(&self) -> (r: Self) {
        Dimension {
            key_ns: self.key_ns.clone(),
            key_value: self.key_value.clone(),
            member_ns: self.member_ns.clone(),
            member_value: self.member_value.clone(),
        }
    }
}

impl Duplicate for Unit {
    fn duplicate(&self) -> (r: Self) {
        Unit { unit_type: self.unit_type.clone(), unit_value: self.unit_value.clone() }
    }
}

impl Duplicate for Period {
    fn duplicate(&self) -> (r: Self) {
        Period { period_type: self.period_type.clone(), period_value: self.period_value.clone() }
    }
}

impl FactItem {
    /// A fact with every text empty, no references and no lists.
    pub fn default() -> (r: FactItem)
        ensures
            r.id@ == Seq::<char>::empty(),
            r.prefix@ == Seq::<char>::empty(),
            r.name@ == Seq::<char>::empty(),
            r.value@ == Seq::<char>::empty(),
            r.decimals@ == Seq::<char>::empty(),
            r.context_ref is None,
            r.unit_ref is None,
            r.dimensions@ == Seq::<Dimension>::empty(),
            r.units@ == Seq::<Unit>::empty(),
            r.periods@ == Seq::<Period>::empty(),
    {
        FactItem {
            id: String::new(),
            prefix: String::new(),
            name: String::new(),
            value: String::new(),
            decimals: String::new(),
            context_ref: None,
            unit_ref: None,
            dimensions: Vec::new(),
            units: Vec::new(),
            periods: Vec::new(),
        }
    }
}

/// Where a filing comes from on EDGAR: the parts of its address.
#[derive(Clone, Debug)]
pub struct EdgarUrl {
    pub unique_id: String,
    pub cik: u64,
    pub cik_padded: String,
    pub accession_number: String,
    pub raw_url: String,
}

/// A filing: where it comes from and its facts.
#[derive(Clone, Debug)]
pub struct XBRLFiling {
    pub id: String,
    pub cik: u64,
    pub cik_padded: String,
    pub accession_number: String,
    pub raw_url: String,
    pub num_facts: u32,
    pub facts: Vec<FactItem>,
}

/// A fact as one row of a table: its own fields without its lists.
#[derive(Clone, Debug)]
pub struct FactTableRow {
    pub id: String,
    pub prefix: String,
    pub name: String,
    pub value: String,
    pub decimals: String,
    pub context_ref: Option<String>,
    pub unit_ref: Option<String>,
}

/// One dimension of a fact as one row of a table.
#[derive(Clone, Debug)]
pub struct DimensionTableRow {
    pub fact_id: String,
    pub key_ns: String,
    pub key_value: String,
    pub member_ns: String,
    pub member_value: String,
}

pub struct FactTableRowView {
    pub id: Seq<char>,
    pub prefix: Seq<char>,
    pub name: Seq<char>,
    pub value: Seq<char>,
    pub decimals: Seq<char>,
    pub context_ref: Option<Seq<char>>,
    pub unit_ref: Option<Seq<char>>,
}

pub struct DimensionTableRowView {
    pub fact_id: Seq<char>,
    pub key_ns: Seq<char>,
    pub key_value: Seq<char>,
    pub member_ns: Seq<char>,
    pub member_value: Seq<char>,
}

impl DeepView for FactTableRow {
    type V = FactTableRowView;

    open spec fn deep_view(&self) -> FactTableRowView {
        FactTableRowView {
            id: self.id@,
            prefix: self.prefix@,
            name: self.name@,
            value: self.value@,
            decimals: self.decimals@,
            context_ref: self.context_ref.deep_view(),
            unit_ref: self.unit_ref.deep_view(),
        }
    }
}

impl DeepView for DimensionTableRow {
    type V = DimensionTableRowView;

    open spec fn deep_view(&self) -> DimensionTableRowView {
        DimensionTableRowView {
            fact_id: self.fact_id@,
            key_ns: self.key_ns@,
            key_value: self.key_value@,
            member_ns: self.member_ns@,
            member_value: self.member_value@,
        }
    }
}

// ---------------------------------------------------------------------------
// What a filing's facts are, as functions of the parsed document.
// ---------------------------------------------------------------------------

/// The concatenation of `f(lo)`, `f(lo + 1)`, ..., `f(hi - 1)`.
pub open spec fn gather<T>(lo: int, hi: int, f: spec_fn(int) -> Seq<T>) -> Seq<T>
    decreases hi - lo,
{
    if hi <= lo {
        seq![]
    } else {
        gather(lo, hi - 1, f) + f(hi - 1)
    }
}

pub open spec fn or_empty(o: Option<Seq<char>>) -> Seq<char> {
    match o {
        Some(s) => s,
        None => seq![],
    }
}

/// One past the last descendant of node `p`, kept within the document.
pub open spec fn subtree_end(d: XmlDocumentView, p: int) -> int {
    if 0 <= p < d.nodes.len() {
        if p + d.nodes[p].subtree_len <= d.nodes.len() {
            p + d.nodes[p].subtree_len
        } else {
            d.nodes.len() as int
        }
    } else {
        p
    }
}

/// The value of the first attribute without namespace named `key`
/// (`Node::attribute` with a plain name).
pub open spec fn find_attribute(attrs: Seq<XmlAttributeView>, key: Seq<char>) -> Option<Seq<char>>
    decreases attrs.len(),
{
    if attrs.len() == 0 {
        None
    } else if attrs[0].namespace is None && attrs[0].name == key {
        Some(attrs[0].value)
    } else {
        find_attribute(attrs.drop_first(), key)
    }
}

pub open spec fn attribute_of(d: XmlDocumentView, i: int, key: Seq<char>) -> Option<Seq<char>> {
    find_attribute(d.nodes[i].attributes, key)
}

/// The `id` attribute of node `i`, or the empty string.
pub open spec fn id_of(d: XmlDocumentView, i: int) -> Seq<char> {
    or_empty(attribute_of(d, i, "id"@))
}

pub open spec fn name_of(d: XmlDocumentView, i: int) -> Seq<char> {
    d.nodes[i].name
}

pub open spec fn text_of(d: XmlDocumentView, i: int) -> Seq<char> {
    or_empty(d.nodes[i].text)
}

/// Node `j`, as a one-element list, if it is an element child of `p`.
pub open spec fn child_element(d: XmlDocumentView, p: int, j: int) -> Seq<usize> {
    if d.nodes[j].parent == Some(p as usize) && d.nodes[j].is_element {
        seq![j as usize]
    } else {
        seq![]
    }
}

pub open spec fn element_children_upto(d: XmlDocumentView, p: int, k: int) -> Seq<usize> {
    gather(p + 1, k, |j: int| child_element(d, p, j))
}

/// The element children of node `p`, in document order.
pub open spec fn element_children(d: XmlDocumentView, p: int) -> Seq<usize> {
    element_children_upto(d, p, subtree_end(d, p))
}

/// The element children of the root element: units, contexts and facts.
pub open spec fn top_elements(d: XmlDocumentView) -> Seq<usize> {
    element_children(d, d.root_element as int)
}

/// The name of node `j`'s parent.
pub open spec fn parent_name(d: XmlDocumentView, j: int) -> Seq<char> {
    match d.nodes[j].parent {
        Some(q) => if q < d.nodes.len() {
            d.nodes[q as int].name
        } else {
            seq![]
        },
        None => seq![],
    }
}

/// A `measure` node, read as a unit.
pub open spec fn measure_unit(d: XmlDocumentView, j: int) -> Seq<UnitView> {
    if name_of(d, j) == "measure"@ {
        seq![UnitView { unit_type: parent_name(d, j), unit_value: text_of(d, j) }]
    } else {
        seq![]
    }
}

pub open spec fn unit_measures_upto(d: XmlDocumentView, u: int, k: int) -> Seq<UnitView> {
    gather(u, k, |j: int| measure_unit(d, j))
}

/// The measures under a `unit` element, in document order.
pub open spec fn unit_measures(d: XmlDocumentView, u: int) -> Seq<UnitView> {
    unit_measures_upto(d, u, subtree_end(d, u))
}

/// A date node of a period, read as a period.
pub open spec fn period_item(d: XmlDocumentView, j: int) -> Seq<PeriodView> {
    let n = name_of(d, j);
    if n == "instant"@ || n == "startDate"@ || n == "endDate"@ {
        seq![PeriodView { period_type: n, period_value: text_of(d, j) }]
    } else {
        seq![]
    }
}

pub open spec fn period_items_upto(d: XmlDocumentView, c: int, k: int) -> Seq<PeriodView> {
    gather(c, k, |j: int| period_item(d, j))
}

/// The dates under a `period` element, in document order.
pub open spec fn period_items(d: XmlDocumentView, c: int) -> Seq<PeriodView> {
    period_items_upto(d, c, subtree_end(d, c))
}

/// An `explicitMember` node with a `dimension` attribute.
pub open spec fn is_dimension_member(d: XmlDocumentView, j: int) -> bool {
    name_of(d, j) == "explicitMember"@ && attribute_of(d, j, "dimension"@) is Some
}

/// Both the `dimension` attribute and the text of a member hold a colon.
pub open spec fn member_well_formed(d: XmlDocumentView, j: int) -> bool {
    is_dimension_member(d, j) ==> {
        &&& split_by(or_empty(attribute_of(d, j, "dimension"@)), seq![':']).len() >= 2
        &&& split_by(text_of(d, j), seq![':']).len() >= 2
    }
}

/// An explicit member, read as a dimension: the first and second
/// `:`-separated fields of its `dimension` attribute and of its text.
pub open spec fn member_item(d: XmlDocumentView, j: int) -> Seq<DimensionView> {
    if is_dimension_member(d, j) {
        let key = split_by(or_empty(attribute_of(d, j, "dimension"@)), seq![':']);
        let member = split_by(text_of(d, j), seq![':']);
        seq![
            DimensionView {
                key_ns: key[0],
                key_value: key[1],
                member_ns: member[0],
                member_value: member[1],
            },
        ]
    } else {
        seq![]
    }
}

pub open spec fn member_items_upto(d: XmlDocumentView, c: int, k: int) -> Seq<DimensionView> {
    gather(c, k, |j: int| member_item(d, j))
}

/// The explicit members under an `entity` element, in document order.
pub open spec fn member_items(d: XmlDocumentView, c: int) -> Seq<DimensionView> {
    member_items_upto(d, c, subtree_end(d, c))
}

/// Every explicit member under an `entity` element is well formed.
pub open spec fn members_well_formed(d: XmlDocumentView, c: int) -> bool {
    forall|j: int| c <= j < subtree_end(d, c) ==> #[trigger] member_well_formed(d, j)
}

/// The dates of a context's child, if the child is a `period`.
pub open spec fn child_periods(d: XmlDocumentView, c: int) -> Seq<PeriodView> {
    if name_of(d, c) == "period"@ {
        period_items(d, c)
    } else {
        seq![]
    }
}

pub open spec fn context_periods_upto(d: XmlDocumentView, x: int, k: int) -> Seq<PeriodView> {
    gather(0, k, |i: int| child_periods(d, element_children(d, x)[i] as int))
}

/// The dates of a `context` element, in document order.
pub open spec fn context_periods(d: XmlDocumentView, x: int) -> Seq<PeriodView> {
    context_periods_upto(d, x, element_children(d, x).len() as int)
}

/// The explicit members of a context's child, if the child is an `entity`.
pub open spec fn child_members(d: XmlDocumentView, c: int) -> Seq<DimensionView> {
    if name_of(d, c) == "entity"@ {
        member_items(d, c)
    } else {
        seq![]
    }
}

pub open spec fn context_dimensions_upto(d: XmlDocumentView, x: int, k: int) -> Seq<DimensionView> {
    gather(0, k, |i: int| child_members(d, element_children(d, x)[i] as int))
}

/// The explicit members of a `context` element, in document order.
pub open spec fn context_dimensions(d: XmlDocumentView, x: int) -> Seq<DimensionView> {
    context_dimensions_upto(d, x, element_children(d, x).len() as int)
}

/// Every explicit member of the `context` element `x` is well formed.
pub open spec fn context_well_formed(d: XmlDocumentView, x: int) -> bool {
    forall|i: int|
        0 <= i < element_children(d, x).len() && name_of(d, element_children(d, x)[i] as int)
            == "entity"@ ==> members_well_formed(d, #[trigger] element_children(d, x)[i] as int)
}

/// The entry that a `unit` element adds to the table of units: its id and
/// its measures.
pub open spec fn unit_entry(d: XmlDocumentView, u: int) -> Seq<(Seq<char>, Seq<UnitView>)> {
    if name_of(d, u) == "unit"@ {
        seq![(id_of(d, u), unit_measures(d, u))]
    } else {
        seq![]
    }
}

pub open spec fn unit_entries_upto(d: XmlDocumentView, k: int) -> Seq<(Seq<char>, Seq<UnitView>)> {
    gather(0, k, |i: int| unit_entry(d, top_elements(d)[i] as int))
}

/// The units declared under each `unit` id, one entry per `unit` element.
pub open spec fn unit_entries(d: XmlDocumentView) -> Seq<(Seq<char>, Seq<UnitView>)> {
    unit_entries_upto(d, top_elements(d).len() as int)
}

pub open spec fn period_entry(d: XmlDocumentView, x: int) -> Seq<(Seq<char>, Seq<PeriodView>)> {
    if name_of(d, x) == "context"@ {
        seq![(id_of(d, x), context_periods(d, x))]
    } else {
        seq![]
    }
}

pub open spec fn period_entries_upto(d: XmlDocumentView, k: int) -> Seq<(Seq<char>, Seq<PeriodView>)> {
    gather(0, k, |i: int| period_entry(d, top_elements(d)[i] as int))
}

/// The dates declared under each `context` id, one entry per `context`.
pub open spec fn period_entries(d: XmlDocumentView) -> Seq<(Seq<char>, Seq<PeriodView>)> {
    period_entries_upto(d, top_elements(d).len() as int)
}

pub open spec fn dimension_entry(d: XmlDocumentView, x: int) -> Seq<(Seq<char>, Seq<DimensionView>)> {
    if name_of(d, x) == "context"@ {
        seq![(id_of(d, x), context_dimensions(d, x))]
    } else {
        seq![]
    }
}

pub open spec fn dimension_entries_upto(d: XmlDocumentView, k: int) -> Seq<(Seq<char>, Seq<DimensionView>)> {
    gather(0, k, |i: int| dimension_entry(d, top_elements(d)[i] as int))
}

/// The explicit members declared under each `context` id, one entry per
/// `context`.
pub open spec fn dimension_entries(d: XmlDocumentView) -> Seq<(Seq<char>, Seq<DimensionView>)> {
    dimension_entries_upto(d, top_elements(d).len() as int)
}

/// Every explicit member of every context of the document holds a colon in
/// its `dimension` attribute and in its text.
pub open spec fn dimensions_well_formed(d: XmlDocumentView) -> bool {
    forall|i: int|
        0 <= i < top_elements(d).len() && name_of(d, top_elements(d)[i] as int) == "context"@
            ==> context_well_formed(d, #[trigger] top_elements(d)[i] as int)
}

pub open spec fn lookup_upto<T>(entries: Seq<(Seq<char>, Seq<T>)>, key: Seq<char>, k: int) -> Seq<T> {
    gather(0, k, |i: int| if entries[i].0 == key { entries[i].1 } else { seq![] })
}

/// Everything filed under `key`, in the order of the entries: what a table
/// that appends each entry's items under its key holds for `key` in the end.
pub open spec fn lookup<T>(entries: Seq<(Seq<char>, Seq<T>)>, key: Seq<char>) -> Seq<T> {
    lookup_upto(entries, key, entries.len() as int)
}

/// A top-level element that is read as a fact: any element with
/// a namespace that is not a context, a unit, the root or the schema link.
pub open spec fn is_fact_element(d: XmlDocumentView, e: int) -> bool {
    let n = name_of(d, e);
    &&& !(n == "context"@ || n == "unit"@ || n == "xbrl"@ || n == "schemaRef"@)
    &&& d.nodes[e].namespace is Some
}

/// The fact that the element `e` reports.
pub open spec fn fact_of(d: XmlDocumentView, e: int) -> FactItemView {
    let context_ref = attribute_of(d, e, "contextRef"@);
    let unit_ref = attribute_of(d, e, "unitRef"@);
    FactItemView {
        id: id_of(d, e),
        prefix: or_empty(d.nodes[e].prefix),
        name: name_of(d, e),
        value: text_of(d, e),
        decimals: or_empty(attribute_of(d, e, "decimals"@)),
        context_ref: context_ref,
        unit_ref: unit_ref,
        dimensions: match context_ref {
            Some(c) => lookup(dimension_entries(d), c),
            None => seq![],
        },
        units: match unit_ref {
            Some(u) => lookup(unit_entries(d), u),
            None => seq![],
        },
        periods: match context_ref {
            Some(c) => lookup(period_entries(d), c),
            None => seq![],
        },
    }
}

pub open spec fn fact_entry(d: XmlDocumentView, e: int) -> Seq<FactItemView> {
    if is_fact_element(d, e) {
        seq![fact_of(d, e)]
    } else {
        seq![]
    }
}

pub open spec fn document_facts_upto(d: XmlDocumentView, k: int) -> Seq<FactItemView> {
    gather(0, k, |i: int| fact_entry(d, top_elements(d)[i] as int))
}

/// The facts of a document, in document order.
pub open spec fn document_facts(d: XmlDocumentView) -> Seq<FactItemView> {
    document_facts_upto(d, top_elements(d).len() as int)
}

/// The text can be read: after white space is collapsed it parses as XML and
/// every explicit member of its contexts is well formed.
pub open spec fn readable_xml(raw: Seq<char>) -> bool {
    match parsed_xml(collapse_whitespace(raw)) {
        Some(d) => dimensions_well_formed(d),
        None => false,
    }
}

/// The facts of the XML text `raw`, read after every run of white space has
/// been collapsed to one space.
pub open spec fn xml_facts(raw: Seq<char>) -> Seq<FactItemView> {
    match parsed_xml(collapse_whitespace(raw)) {
        Some(d) => document_facts(d),
        None => seq![],
    }
}

/// The table row of a fact.
pub open spec fn fact_row(f: FactItemView) -> FactTableRowView {
    FactTableRowView {
        id: f.id,
        prefix: f.prefix,
        name: f.name,
        value: f.value,
        decimals: f.decimals,
        context_ref: f.context_ref,
        unit_ref: f.unit_ref,
    }
}

/// The dimension rows of a fact: one per dimension, in order, each with the
/// fact's id.
pub open spec fn dimension_rows_of(f: FactItemView) -> Seq<DimensionTableRowView> {
    f.dimensions.map_values(
        |d: DimensionView|
            DimensionTableRowView {
                fact_id: f.id,
                key_ns: d.key_ns,
                key_value: d.key_value,
                member_ns: d.member_ns,
                member_value: d.member_value,
            },
    )
}

/// One row per fact, in order.
pub open spec fn fact_table_of(facts: Seq<FactItemView>) -> Seq<FactTableRowView> {
    facts.map_values(|f: FactItemView| fact_row(f))
}

pub open spec fn dimension_table_upto(facts: Seq<FactItemView>, k: int) -> Seq<DimensionTableRowView> {
    gather(0, k, |i: int| dimension_rows_of(facts[i]))
}

/// The dimension rows of all the facts, fact by fact.
pub open spec fn dimension_table_of(facts: Seq<FactItemView>) -> Seq<DimensionTableRowView> {
    dimension_table_upto(facts, facts.len() as int)
}

// ---------------------------------------------------------------------------
// Reading the document.
// ---------------------------------------------------------------------------

fn subtree_end_of(doc: &XmlDocument, p: usize) -> (r: usize)
    requires
        p < doc.nodes@.len(),
    ensures
        r == subtree_end(doc@, p as int),
        p <= r <= doc.nodes@.len(),
{
    let n = doc.nodes.len();
    let len = doc.nodes[p].subtree_len;
    if len <= n - p {
        p + len
    } else {
        n
    }
}

/// The value of the first attribute without namespace named `key`.
pub fn attribute_value(attrs: &Vec<XmlAttribute>, key: &str) -> (r: Option<String>)
    ensures
        r.deep_view() == find_attribute(attrs@.map_values(|a: XmlAttribute| a@), key@),
{
    let ghost all = attrs@.map_values(|a: XmlAttribute| a@);
    let mut i: usize = 0;
    assert(all.skip(0) =~= all);
    while i < attrs.len()
        invariant
            i <= attrs.len(),
            all == attrs@.map_values(|a: XmlAttribute| a@),
            find_attribute(all, key@) == find_attribute(all.skip(i as int), key@),
        decreases attrs.len() - i,
    {
        let a = &attrs[i];
        assert(all.skip(i as int)[0] == a@);
        assert(all.skip(i as int).drop_first() =~= all.skip(i + 1));
        if a.namespace.is_none() && str_eq(a.name.as_str(), key) {
            return Some(a.value.clone());
        }
        i = i + 1;
    }
    assert(all.skip(i as int).len() == 0);
    None
}

/// The element children of node `p`, in document order.
pub fn element_children_of(doc: &XmlDocument, p: usize) -> (r: Vec<usize>)
    requires
        p < doc.nodes@.len(),
    ensures
        r@ == element_children(doc@, p as int),
        forall|i: int| 0 <= i < r@.len() ==> r@[i] < doc.nodes@.len(),
{
    let n = doc.nodes.len();
    let end = subtree_end_of(doc, p);
    let mut r: Vec<usize> = Vec::new();
    let mut j: usize = p + 1;
    while j < end
        invariant
            p < doc.nodes@.len(),
            end == subtree_end(doc@, p as int),
            end <= doc.nodes@.len(),
            p + 1 <= j,
            j <= end || (end <= p + 1 && j == p + 1),
            r@ == element_children_upto(doc@, p as int, j as int),
            forall|i: int| 0 <= i < r@.len() ==> r@[i] < j,
        decreases end - j,
    {
        let node = &doc.nodes[j];
        assert(doc@.nodes[j as int] == node@);
        if node.parent == Some(p) && node.is_element {
            r.push(j);
        }
        j = j + 1;
    }
    if end <= p + 1 {
        assert(element_children(doc@, p as int) =~= Seq::<usize>::empty());
        assert(r@ =~= Seq::<usize>::empty());
    } else {
        assert(j == end);
    }
    r
}

fn name_is(doc: &XmlDocument, j: usize, lit: &str) -> (r: bool)
    requires
        j < doc.nodes@.len(),
    ensures
        r == (name_of(doc@, j as int) == lit@),
{
    assert(doc@.nodes[j as int] == doc.nodes@[j as int]@);
    str_eq(doc.nodes[j].name.as_str(), lit)
}

fn text_or_empty(doc: &XmlDocument, j: usize) -> (r: String)
    requires
        j < doc.nodes@.len(),
    ensures
        r@ == text_of(doc@, j as int),
{
    assert(doc@.nodes[j as int] == doc.nodes@[j as int]@);
    match &doc.nodes[j].text {
        Some(t) => t.clone(),
        None => String::new(),
    }
}

fn attribute_at(doc: &XmlDocument, j: usize, key: &str) -> (r: Option<String>)
    requires
        j < doc.nodes@.len(),
    ensures
        r.deep_view() == attribute_of(doc@, j as int, key@),
{
    assert(doc@.nodes[j as int] == doc.nodes@[j as int]@);
    attribute_value(&doc.nodes[j].attributes, key)
}

/// The measures under the `unit` element `u`, in document order.
pub fn unit_measures_of(doc: &XmlDocument, u: usize) -> (r: Vec<Unit>)
    requires
        u < doc.nodes@.len(),
    ensures
        r.deep_view() == unit_measures(doc@, u as int),
{
    let n = doc.nodes.len();
    let end = subtree_end_of(doc, u);
    let mut r: Vec<Unit> = Vec::new();
    let mut j: usize = u;
    while j < end
        invariant
            n == doc.nodes@.len(),
            end == subtree_end(doc@, u as int),
            u <= j <= end <= n,
            r.deep_view() == unit_measures_upto(doc@, u as int, j as int),
        decreases end - j,
    {
        if name_is(doc, j, "measure") {
            assert(doc@.nodes[j as int] == doc.nodes@[j as int]@);
            let parent_name = match doc.nodes[j].parent {
                Some(q) => if q < n {
                    assert(doc@.nodes[q as int] == doc.nodes@[q as int]@);
                    doc.nodes[q].name.clone()
                } else {
                    String::new()
                },
                None => String::new(),
            };
            let unit = Unit { unit_type: parent_name, unit_value: text_or_empty(doc, j) };
            let ghost before = r.deep_view();
            r.push(unit);
            assert(r.deep_view() =~= before + measure_unit(doc@, j as int));
        } else {
            assert(measure_unit(doc@, j as int) =~= Seq::<UnitView>::empty());
            assert(r.deep_view() =~= r.deep_view() + measure_unit(doc@, j as int));
        }
        j = j + 1;
    }
    r
}

/// The dates under the `period` element `c`, in document order.
pub fn period_items_of(doc: &XmlDocument, c: usize) -> (r: Vec<Period>)
    requires
        c < doc.nodes@.len(),
    ensures
        r.deep_view() == period_items(doc@, c as int),
{
    let n = doc.nodes.len();
    let end = subtree_end_of(doc, c);
    let mut r: Vec<Period> = Vec::new();
    let mut j: usize = c;
    while j < end
        invariant
            n == doc.nodes@.len(),
            end == subtree_end(doc@, c as int),
            c <= j <= end <= n,
            r.deep_view() == period_items_upto(doc@, c as int, j as int),
        decreases end - j,
    {
        if name_is(doc, j, "instant") || name_is(doc, j, "startDate") || name_is(doc, j, "endDate") {
            assert(doc@.nodes[j as int] == doc.nodes@[j as int]@);
            let period = Period {
                period_type: doc.nodes[j].name.clone(),
                period_value: text_or_empty(doc, j),
            };
            let ghost before = r.deep_view();
            r.push(period);
            assert(r.deep_view() =~= before + period_item(doc@, j as int));
        } else {
            assert(period_item(doc@, j as int) =~= Seq::<PeriodView>::empty());
            assert(r.deep_view() =~= r.deep_view() + period_item(doc@, j as int));
        }
        j = j + 1;
    }
    r
}

fn colon_parts(s: &str) -> (r: Vec<String>)
    ensures
        r.deep_view() == split_by(s@, seq![':']),
        r.len() >= 1,
{
    let seps: [char; 1] = [':'];
    assert(seps@ =~= seq![':']);
    split_on_any(s, &seps)
}

/// Whether the explicit member at `j`, if `j` is one, is well formed.
fn member_well_formed_at(doc: &XmlDocument, j: usize) -> (r: bool)
    requires
        j < doc.nodes@.len(),
    ensures
        r == member_well_formed(doc@, j as int),
{
    if !name_is(doc, j, "explicitMember") {
        return true;
    }
    match attribute_at(doc, j, "dimension") {
        Some(dim) => {
            let key = colon_parts(dim.as_str());
            let text = text_or_empty(doc, j);
            let member = colon_parts(text.as_str());
            key.len() >= 2 && member.len() >= 2
        },
        None => true,
    }
}

/// Whether every explicit member under the element `c` is well formed.
pub fn members_well_formed_at(doc: &XmlDocument, c: usize) -> (r: bool)
    requires
        c < doc.nodes@.len(),
    ensures
        r == members_well_formed(doc@, c as int),
{
    let n = doc.nodes.len();
    let end = subtree_end_of(doc, c);
    let mut j: usize = c;
    while j < end
        invariant
            n == doc.nodes@.len(),
            end == subtree_end(doc@, c as int),
            c <= j <= end <= n,
            forall|k: int| c <= k < j ==> #[trigger] member_well_formed(doc@, k),
        decreases end - j,
    {
        if !member_well_formed_at(doc, j) {
            return false;
        }
        j = j + 1;
    }
    true
}

/// The explicit members under the `entity` element `c`, in document order.
pub fn member_items_of(doc: &XmlDocument, c: usize) -> (r: Vec<Dimension>)
    requires
        c < doc.nodes@.len(),
        members_well_formed(doc@, c as int),
    ensures
        r.deep_view() == member_items(doc@, c as int),
{
    let n = doc.nodes.len();
    let end = subtree_end_of(doc, c);
    let mut r: Vec<Dimension> = Vec::new();
    let mut j: usize = c;
    while j < end
        invariant
            n == doc.nodes@.len(),
            end == subtree_end(doc@, c as int),
            c <= j <= end <= n,
            members_well_formed(doc@, c as int),
            r.deep_view() == member_items_upto(doc@, c as int, j as int),
        decreases end - j,
    {
        let mut added = false;
        if name_is(doc, j, "explicitMember") {
            if let Some(dim) = attribute_at(doc, j, "dimension") {
                assert(member_well_formed(doc@, j as int));
                let key = colon_parts(dim.as_str());
                let text = text_or_empty(doc, j);
                let member = colon_parts(text.as_str());
                assert(key.deep_view()[0] == key@[0]@ && key.deep_view()[1] == key@[1]@);
                assert(member.deep_view()[0] == member@[0]@ && member.deep_view()[1] == member@[1]@);
                let dimension = Dimension {
                    key_ns: key[0].clone(),
                    key_value: key[1].clone(),
                    member_ns: member[0].clone(),
                    member_value: member[1].clone(),
                };
                let ghost before = r.deep_view();
                r.push(dimension);
                assert(r.deep_view() =~= before + member_item(doc@, j as int));
                added = true;
            }
        }
        if !added {
            assert(member_item(doc@, j as int) =~= Seq::<DimensionView>::empty());
            assert(r.deep_view() =~= r.deep_view() + member_item(doc@, j as int));
        }
        j = j + 1;
    }
    r
}

/// The dates of the `context` element `x`, in document order.
pub fn context_periods_of(doc: &XmlDocument, x: usize) -> (r: Vec<Period>)
    requires
        x < doc.nodes@.len(),
    ensures
        r.deep_view() == context_periods(doc@, x as int),
{
    let kids = element_children_of(doc, x);
    let mut r: Vec<Period> = Vec::new();
    let mut i: usize = 0;
    while i < kids.len()
        invariant
            x < doc.nodes@.len(),
            kids@ == element_children(doc@, x as int),
            forall|m: int| 0 <= m < kids@.len() ==> kids@[m] < doc.nodes@.len(),
            i <= kids.len(),
            r.deep_view() == context_periods_upto(doc@, x as int, i as int),
        decreases kids.len() - i,
    {
        let c = kids[i];
        let ghost before = r.deep_view();
        if name_is(doc, c, "period") {
            let mut items = period_items_of(doc, c);
            let ghost added = items.deep_view();
            r.append(&mut items);
            assert(r.deep_view() =~= before + added);
        }
        assert(r.deep_view() =~= before + child_periods(doc@, c as int));
        i = i + 1;
    }
    r
}

/// Whether every explicit member of the `context` element `x` is well formed.
pub fn context_well_formed_at(doc: &XmlDocument, x: usize) -> (r: bool)
    requires
        x < doc.nodes@.len(),
    ensures
        r == context_well_formed(doc@, x as int),
{
    let kids = element_children_of(doc, x);
    let mut i: usize = 0;
    while i < kids.len()
        invariant
            x < doc.nodes@.len(),
            kids@ == element_children(doc@, x as int),
            forall|m: int| 0 <= m < kids@.len() ==> kids@[m] < doc.nodes@.len(),
            i <= kids.len(),
            forall|m: int|
                0 <= m < i && name_of(doc@, kids@[m] as int) == "entity"@ ==> members_well_formed(
                    doc@,
                    #[trigger] kids@[m] as int,
                ),
        decreases kids.len() - i,
    {
        let c = kids[i];
        if name_is(doc, c, "entity") && !members_well_formed_at(doc, c) {
            return false;
        }
        i = i + 1;
    }
    true
}

/// The explicit members of the `context` element `x`, in document order.
pub fn context_dimensions_of(doc: &XmlDocument, x: usize) -> (r: Vec<Dimension>)
    requires
        x < doc.nodes@.len(),
        context_well_formed(doc@, x as int),
    ensures
        r.deep_view() == context_dimensions(doc@, x as int),
{
    let kids = element_children_of(doc, x);
    let mut r: Vec<Dimension> = Vec::new();
    let mut i: usize = 0;
    while i < kids.len()
        invariant
            x < doc.nodes@.len(),
            context_well_formed(doc@, x as int),
            kids@ == element_children(doc@, x as int),
            forall|m: int| 0 <= m < kids@.len() ==> kids@[m] < doc.nodes@.len(),
            i <= kids.len(),
            r.deep_view() == context_dimensions_upto(doc@, x as int, i as int),
        decreases kids.len() - i,
    {
        let c = kids[i];
        let ghost before = r.deep_view();
        if name_is(doc, c, "entity") {
            assert(members_well_formed(doc@, kids@[i as int] as int));
            let mut items = member_items_of(doc, c);
            let ghost added = items.deep_view();
            r.append(&mut items);
            assert(r.deep_view() =~= before + added);
        }
        assert(r.deep_view() =~= before + child_members(doc@, c as int));
        i = i + 1;
    }
    r
}

/// The element children of the root element (none where the root element's
/// number lies outside the document).
pub fn top_elements_of(doc: &XmlDocument) -> (r: Vec<usize>)
    ensures
        r@ == top_elements(doc@),
        forall|i: int| 0 <= i < r@.len() ==> r@[i] < doc.nodes@.len(),
{
    if doc.root_element < doc.nodes.len() {
        element_children_of(doc, doc.root_element)
    } else {
        assert(top_elements(doc@) =~= Seq::<usize>::empty());
        Vec::new()
    }
}

/// One entry per `unit` element: its id and its measures.
pub fn unit_entries_of(doc: &XmlDocument, top: &Vec<usize>) -> (r: Vec<(String, Vec<Unit>)>)
    requires
        top@ == top_elements(doc@),
        forall|i: int| 0 <= i < top@.len() ==> top@[i] < doc.nodes@.len(),
    ensures
        r.deep_view() == unit_entries(doc@),
{
    let mut r: Vec<(String, Vec<Unit>)> = Vec::new();
    let mut i: usize = 0;
    while i < top.len()
        invariant
            top@ == top_elements(doc@),
            forall|m: int| 0 <= m < top@.len() ==> top@[m] < doc.nodes@.len(),
            i <= top.len(),
            r.deep_view() == unit_entries_upto(doc@, i as int),
        decreases top.len() - i,
    {
        let u = top[i];
        let ghost before = r.deep_view();
        if name_is(doc, u, "unit") {
            let id = match attribute_at(doc, u, "id") {
                Some(v) => v,
                None => String::new(),
            };
            let entry = (id, unit_measures_of(doc, u));
            r.push(entry);
            assert(r.deep_view() =~= before + unit_entry(doc@, u as int));
        } else {
            assert(r.deep_view() =~= before + unit_entry(doc@, u as int));
        }
        i = i + 1;
    }
    r
}

/// One entry per `context` element: its id and its dates.
pub fn period_entries_of(doc: &XmlDocument, top: &Vec<usize>) -> (r: Vec<(String, Vec<Period>)>)
    requires
        top@ == top_elements(doc@),
        forall|i: int| 0 <= i < top@.len() ==> top@[i] < doc.nodes@.len(),
    ensures
        r.deep_view() == period_entries(doc@),
{
    let mut r: Vec<(String, Vec<Period>)> = Vec::new();
    let mut i: usize = 0;
    while i < top.len()
        invariant
            top@ == top_elements(doc@),
            forall|m: int| 0 <= m < top@.len() ==> top@[m] < doc.nodes@.len(),
            i <= top.len(),
            r.deep_view() == period_entries_upto(doc@, i as int),
        decreases top.len() - i,
    {
        let x = top[i];
        let ghost before = r.deep_view();
        if name_is(doc, x, "context") {
            let id = match attribute_at(doc, x, "id") {
                Some(v) => v,
                None => String::new(),
            };
            let entry = (id, context_periods_of(doc, x));
            r.push(entry);
        }
        assert(r.deep_view() =~= before + period_entry(doc@, x as int));
        i = i + 1;
    }
    r
}

/// One entry per `context` element: its id and its explicit members.
pub fn dimension_entries_of(doc: &XmlDocument, top: &Vec<usize>) -> (r: Vec<(String, Vec<Dimension>)>)
    requires
        top@ == top_elements(doc@),
        forall|i: int| 0 <= i < top@.len() ==> top@[i] < doc.nodes@.len(),
        dimensions_well_formed(doc@),
    ensures
        r.deep_view() == dimension_entries(doc@),
{
    let mut r: Vec<(String, Vec<Dimension>)> = Vec::new();
    let mut i: usize = 0;
    while i < top.len()
        invariant
            top@ == top_elements(doc@),
            forall|m: int| 0 <= m < top@.len() ==> top@[m] < doc.nodes@.len(),
            dimensions_well_formed(doc@),
            i <= top.len(),
            r.deep_view() == dimension_entries_upto(doc@, i as int),
        decreases top.len() - i,
    {
        let x = top[i];
        let ghost before = r.deep_view();
        if name_is(doc, x, "context") {
            assert(context_well_formed(doc@, top@[i as int] as int));
            let id = match attribute_at(doc, x, "id") {
                Some(v) => v,
                None => String::new(),
            };
            let entry = (id, context_dimensions_of(doc, x));
            r.push(entry);
        }
        assert(r.deep_view() =~= before + dimension_entry(doc@, x as int));
        i = i + 1;
    }
    r
}

/// Whether every explicit member of every context is well formed.
pub fn dimensions_well_formed_at(doc: &XmlDocument) -> (r: bool)
    ensures
        r == dimensions_well_formed(doc@),
{
    let top = top_elements_of(doc);
    let mut i: usize = 0;
    while i < top.len()
        invariant
            top@ == top_elements(doc@),
            forall|m: int| 0 <= m < top@.len() ==> top@[m] < doc.nodes@.len(),
            i <= top.len(),
            forall|m: int|
                0 <= m < i && name_of(doc@, top@[m] as int) == "context"@ ==> context_well_formed(
                    doc@,
                    #[trigger] top@[m] as int,
                ),
        decreases top.len() - i,
    {
        let x = top[i];
        if name_is(doc, x, "context") && !context_well_formed_at(doc, x) {
            return false;
        }
        i = i + 1;
    }
    true
}

/// Copies of everything filed under `key`, in the order of the entries.
pub fn lookup_entries<T: Duplicate>(entries: &Vec<(String, Vec<T>)>, key: &str) -> (r: Vec<T>)
    ensures
        r.deep_view() == lookup(entries.deep_view(), key@),
{
    let ghost es = entries.deep_view();
    let mut r: Vec<T> = Vec::new();
    let mut i: usize = 0;
    while i < entries.len()
        invariant
            es == entries.deep_view(),
            i <= entries.len(),
            r.deep_view() == lookup_upto(es, key@, i as int),
        decreases entries.len() - i,
    {
        let ghost before = r.deep_view();
        let entry = &entries[i];
        assert(es[i as int] == entry.deep_view());
        if str_eq(entry.0.as_str(), key) {
            let items = &entry.1;
            let mut j: usize = 0;
            while j < items.len()
                invariant
                    j <= items.len(),
                    r.deep_view() == before + items.deep_view().take(j as int),
                decreases items.len() - j,
            {
                let ghost mid = r.deep_view();
                let copy = items[j].duplicate();
                r.push(copy);
                assert(r.deep_view() =~= mid.push(copy.deep_view()));
                assert(items.deep_view().take(j + 1) =~= items.deep_view().take(j as int).push(
                    items@[j as int].deep_view(),
                ));
                j = j + 1;
            }
            assert(items.deep_view().take(items.len() as int) =~= items.deep_view());
        }
        assert(r.deep_view() =~= lookup_upto(es, key@, i + 1));
        i = i + 1;
    }
    r
}

/// The facts of a parsed document, in document order: each top-level element
/// with a namespace that is not a `context`, `unit`, `xbrl` or `schemaRef`
/// element, with the units filed under its `unitRef` and the dimensions and
/// periods filed under its `contextRef`.
pub fn facts_from_document(doc: &XmlDocument) -> (r: Vec<FactItem>)
    requires
        dimensions_well_formed(doc@),
    ensures
        r.deep_view() == document_facts(doc@),
{
    let top = top_elements_of(doc);
    let units = unit_entries_of(doc, &top);
    let periods = period_entries_of(doc, &top);
    let dimensions = dimension_entries_of(doc, &top);
    let mut facts: Vec<FactItem> = Vec::new();
    let mut i: usize = 0;
    while i < top.len()
        invariant
            top@ == top_elements(doc@),
            forall|m: int| 0 <= m < top@.len() ==> top@[m] < doc.nodes@.len(),
            units.deep_view() == unit_entries(doc@),
            periods.deep_view() == period_entries(doc@),
            dimensions.deep_view() == dimension_entries(doc@),
            i <= top.len(),
            facts.deep_view() == document_facts_upto(doc@, i as int),
        decreases top.len() - i,
    {
        let e = top[i];
        let ghost before = facts.deep_view();
        assert(doc@.nodes[e as int] == doc.nodes@[e as int]@);
        let node = &doc.nodes[e];
        let skipped = name_is(doc, e, "context") || name_is(doc, e, "unit") || name_is(doc, e, "xbrl")
            || name_is(doc, e, "schemaRef");
        if !skipped && node.namespace.is_some() {
            let context_ref = attribute_at(doc, e, "contextRef");
            let unit_ref = attribute_at(doc, e, "unitRef");
            let fact_units = match &unit_ref {
                Some(u) => lookup_entries(&units, u.as_str()),
                None => Vec::new(),
            };
            let fact_dimensions = match &context_ref {
                Some(c) => lookup_entries(&dimensions, c.as_str()),
                None => Vec::new(),
            };
            let fact_periods = match &context_ref {
                Some(c) => lookup_entries(&periods, c.as_str()),
                None => Vec::new(),
            };
            let fact = FactItem {
                id: match attribute_at(doc, e, "id") {
                    Some(v) => v,
                    None => String::new(),
                },
                prefix: match &node.prefix {
                    Some(v) => v.clone(),
                    None => String::new(),
                },
                name: node.name.clone(),
                value: text_or_empty(doc, e),
                decimals: match attribute_at(doc, e, "decimals") {
                    Some(v) => v,
                    None => String::new(),
                },
                context_ref: context_ref,
                unit_ref: unit_ref,
                dimensions: fact_dimensions,
                units: fact_units,
                periods: fact_periods,
            };
            let ghost want = fact_of(doc@, e as int);
            assert(fact.id@ == want.id);
            assert(fact.prefix@ == want.prefix);
            assert(fact.name@ == want.name);
            assert(fact.value@ == want.value);
            assert(fact.decimals@ == want.decimals);
            assert(fact.context_ref.deep_view() == want.context_ref);
            assert(fact.unit_ref.deep_view() == want.unit_ref);
            assert(fact.units.deep_view() == want.units);
            assert(fact.periods.deep_view() == want.periods);
            assert(fact.dimensions.deep_view() == want.dimensions);
            assert(fact.deep_view() == fact_of(doc@, e as int));
            facts.push(fact);
        }
        assert(facts.deep_view() =~= before + fact_entry(doc@, e as int));
        i = i + 1;
    }
    facts
}

/// Reads the facts of an XBRL instance document (see `facts_from_document`),
/// after every run of white space in it has been collapsed to one space.
pub fn parse_xml_to_facts(raw_xml: String) -> (r: Vec<FactItem>)
    requires
        readable_xml(raw_xml@),
    ensures
        r.deep_view() == xml_facts(raw_xml@),
{
    match try_parse_xml_to_facts(raw_xml) {
        Some(facts) => facts,
        None => {
            assert(false);
            Vec::new()
        },
    }
}

/// Whether `parse_xml_to_facts` can read `raw_xml`.
pub fn xml_is_readable(raw_xml: &str) -> (r: bool)
    ensures
        r == readable_xml(raw_xml@),
{
    let collapsed = replace_whitespace_runs(raw_xml);
    match parse_xml_document(collapsed.as_str()) {
        Some(doc) => dimensions_well_formed_at(&doc),
        None => false,
    }
}

/// The facts of `raw_xml`, or `None` where it is not readable XML; the text
/// is collapsed and parsed once.
pub fn try_parse_xml_to_facts(raw_xml: String) -> (r: Option<Vec<FactItem>>)
    ensures
        r is Some <==> readable_xml(raw_xml@),
        r matches Some(facts) ==> facts.deep_view() == xml_facts(raw_xml@),
{
    let collapsed = replace_whitespace_runs(raw_xml.as_str());
    match parse_xml_document(collapsed.as_str()) {
        Some(doc) => if dimensions_well_formed_at(&doc) {
            Some(facts_from_document(&doc))
        } else {
            None
        },
        None => None,
    }
}

impl XBRLFiling {
    fn from_facts(facts: Vec<FactItem>, url_data: EdgarUrl) -> (r: XBRLFiling)
        ensures
            r.id@ == url_data.unique_id@,
            r.cik == url_data.cik,
            r.cik_padded@ == url_data.cik_padded@,
            r.accession_number@ == url_data.accession_number@,
            r.raw_url@ == url_data.raw_url@,
            r.facts.deep_view() == facts.deep_view(),
            r.num_facts == r.facts@.len() as u32,
    {
        let num_facts = facts.len() as u32;
        XBRLFiling {
            id: url_data.unique_id.clone(),
            cik: url_data.cik,
            cik_padded: url_data.cik_padded.clone(),
            accession_number: url_data.accession_number.clone(),
            raw_url: url_data.raw_url.clone(),
            facts: facts,
            num_facts: num_facts,
        }
    }

    /// The filing at `url_data` whose instance document is `raw_xml`.
    pub fn parse(raw_xml: String, url_data: EdgarUrl) -> (r: XBRLFiling)
        requires
            readable_xml(raw_xml@),
        ensures
            r.id@ == url_data.unique_id@,
            r.cik == url_data.cik,
            r.cik_padded@ == url_data.cik_padded@,
            r.accession_number@ == url_data.accession_number@,
            r.raw_url@ == url_data.raw_url@,
            r.facts.deep_view() == xml_facts(raw_xml@),
            r.num_facts == r.facts@.len() as u32,
    {
        XBRLFiling::from_facts(parse_xml_to_facts(raw_xml), url_data)
    }

    /// The filing, or `None` where `raw_xml` is not readable XML; the text is
    /// parsed once.
    pub fn try_parse(raw_xml: String, url_data: EdgarUrl) -> (r: Option<XBRLFiling>)
        ensures
            r is Some <==> readable_xml(raw_xml@),
            r matches Some(f) ==> {
                &&& f.id@ == url_data.unique_id@
                &&& f.cik == url_data.cik
                &&& f.cik_padded@ == url_data.cik_padded@
                &&& f.accession_number@ == url_data.accession_number@
                &&& f.raw_url@ == url_data.raw_url@
                &&& f.facts.deep_view() == xml_facts(raw_xml@)
                &&& f.num_facts == f.facts@.len() as u32
            },
    {
        match try_parse_xml_to_facts(raw_xml) {
            Some(facts) => Some(XBRLFiling::from_facts(facts, url_data)),
            None => None,
        }
    }
}

fn copy_text(o: &Option<String>) -> (r: Option<String>)
    ensures
        r.deep_view() == o.deep_view(),
{
    match o {
        Some(t) => Some(t.clone()),
        None => None,
    }
}

impl FactTableRow {
    /// The table row of `fact`.
    pub fn from_fact(fact: &FactItem) -> (r: FactTableRow)
        ensures
            r.deep_view() == fact_row(fact.deep_view()),
    {
        FactTableRow {
            id: fact.id.clone(),
            prefix: fact.prefix.clone(),
            name: fact.name.clone(),
            value: fact.value.clone(),
            decimals: fact.decimals.clone(),
            context_ref: copy_text(&fact.context_ref),
            unit_ref: copy_text(&fact.unit_ref),
        }
    }
}

/// The dimension rows of `fact`.
pub fn dimension_rows(fact: &FactItem) -> (r: Vec<DimensionTableRow>)
    ensures
        r.deep_view() == dimension_rows_of(fact.deep_view()),
{
    let ghost want = dimension_rows_of(fact.deep_view());
    let mut r: Vec<DimensionTableRow> = Vec::new();
    let mut i: usize = 0;
    while i < fact.dimensions.len()
        invariant
            i <= fact.dimensions.len(),
            want == dimension_rows_of(fact.deep_view()),
            r.deep_view() == want.take(i as int),
        decreases fact.dimensions.len() - i,
    {
        let d = &fact.dimensions[i];
        assert(fact.dimensions.deep_view()[i as int] == d.deep_view());
        let row = DimensionTableRow {
            fact_id: fact.id.clone(),
            key_ns: d.key_ns.clone(),
            key_value: d.key_value.clone(),
            member_ns: d.member_ns.clone(),
            member_value: d.member_value.clone(),
        };
        let ghost before = r.deep_view();
        r.push(row);
        assert(r.deep_view() =~= before.push(row.deep_view()));
        assert(want.take(i + 1) =~= want.take(i as int).push(want[i as int]));
        i = i + 1;
    }
    assert(want.take(fact.dimensions.len() as int) =~= want);
    r
}

/// One table row per fact, in order.
pub fn fact_table(facts: &Vec<FactItem>) -> (r: Vec<FactTableRow>)
    ensures
        r.deep_view() == fact_table_of(facts.deep_view()),
{
    let ghost want = fact_table_of(facts.deep_view());
    let mut r: Vec<FactTableRow> = Vec::new();
    let mut i: usize = 0;
    while i < facts.len()
        invariant
            i <= facts.len(),
            want == fact_table_of(facts.deep_view()),
            r.deep_view() == want.take(i as int),
        decreases facts.len() - i,
    {
        let row = FactTableRow::from_fact(&facts[i]);
        let ghost before = r.deep_view();
        r.push(row);
        assert(r.deep_view() =~= before.push(row.deep_view()));
        assert(want.take(i + 1) =~= want.take(i as int).push(want[i as int]));
        i = i + 1;
    }
    assert(want.take(facts.len() as int) =~= want);
    r
}

/// The dimension rows of all the facts, fact by fact.
pub fn dimension_table(facts: &Vec<FactItem>) -> (r: Vec<DimensionTableRow>)
    ensures
        r.deep_view() == dimension_table_of(facts.deep_view()),
{
    let ghost fs = facts.deep_view();
    let mut r: Vec<DimensionTableRow> = Vec::new();
    let mut i: usize = 0;
    while i < facts.len()
        invariant
            i <= facts.len(),
            fs == facts.deep_view(),
            r.deep_view() == dimension_table_upto(fs, i as int),
        decreases facts.len() - i,
    {
        let mut rows = dimension_rows(&facts[i]);
        assert(fs[i as int] == facts[i as int].deep_view());
        let ghost before = r.deep_view();
        let ghost added = rows.deep_view();
        r.append(&mut rows);
        assert(r.deep_view() =~= before + added);
        i = i + 1;
    }
    r
}

// ---------------------------------------------------------------------------
// Laws.
// ---------------------------------------------------------------------------

proof fn lemma_facts_come_from_elements(d: XmlDocumentView, k: int)
    requires
        0 <= k <= top_elements(d).len(),
    ensures
        document_facts_upto(d, k).len() <= k,
        forall|m: int|
            0 <= m < document_facts_upto(d, k).len() ==> exists|j: int|
                0 <= j < k && is_fact_element(d, top_elements(d)[j] as int)
                    && #[trigger] document_facts_upto(d, k)[m] == fact_of(d, top_elements(d)[j] as int),
    decreases k,
{
    if k > 0 {
        lemma_facts_come_from_elements(d, k - 1);
        let prev = document_facts_upto(d, k - 1);
        let cur = document_facts_upto(d, k);
        let e = top_elements(d)[k - 1] as int;
        assert(cur == prev + fact_entry(d, e));
        assert forall|m: int| 0 <= m < cur.len() implies exists|j: int|
            0 <= j < k && is_fact_element(d, top_elements(d)[j] as int)
                && #[trigger] cur[m] == fact_of(d, top_elements(d)[j] as int) by {
            if m < prev.len() {
                assert(cur[m] == prev[m]);
                let j = choose|j: int|
                    0 <= j < k - 1 && is_fact_element(d, top_elements(d)[j] as int) && #[trigger] prev[m]
                        == fact_of(d, top_elements(d)[j] as int);
                assert(0 <= j < k);
            } else {
                assert(cur[m] == fact_of(d, e));
                assert(is_fact_element(d, e));
            }
        }
    }
}

/// Each fact of a document is read from one top-level element that has a
/// namespace and is not a context, unit, root or schema link: so there are
/// no more facts than top-level elements, no fact carries one of those four
/// names, and a fact without `unitRef` has no units while one without
/// `contextRef` has no periods and no dimensions.
pub proof fn lemma_document_facts_laws(d: XmlDocumentView)
    ensures
        document_facts(d).len() <= top_elements(d).len(),
        forall|m: int|
            0 <= m < document_facts(d).len() ==> {
                let f = #[trigger] document_facts(d)[m];
                &&& f.name != "context"@
                &&& f.name != "unit"@
                &&& f.name != "xbrl"@
                &&& f.name != "schemaRef"@
                &&& f.unit_ref is None ==> f.units.len() == 0
                &&& f.context_ref is None ==> f.periods.len() == 0 && f.dimensions.len() == 0
            },
{
    let k = top_elements(d).len() as int;
    lemma_facts_come_from_elements(d, k);
    assert forall|m: int| 0 <= m < document_facts(d).len() implies {
        let f = #[trigger] document_facts(d)[m];
        &&& f.name != "context"@
        &&& f.name != "unit"@
        &&& f.name != "xbrl"@
        &&& f.name != "schemaRef"@
        &&& f.unit_ref is None ==> f.units.len() == 0
        &&& f.context_ref is None ==> f.periods.len() == 0 && f.dimensions.len() == 0
    } by {
        assert(document_facts(d)[m] == document_facts_upto(d, k)[m]);
        let j = choose|j: int|
            0 <= j < k && is_fact_element(d, top_elements(d)[j] as int) && #[trigger] document_facts_upto(
                d,
                k,
            )[m] == fact_of(d, top_elements(d)[j] as int);
    }
}

/// Two texts that differ only in the white space of their runs of white
/// space (each run replaced by another non-empty one) are both readable or
/// both not, and give the same facts.
pub proof fn lemma_facts_ignore_white_space_runs(a: Seq<char>, b: Seq<char>)
    requires
        same_but_white_space_runs(a, b),
    ensures
        readable_xml(a) == readable_xml(b),
        xml_facts(a) == xml_facts(b),
{
    lemma_collapse_ignores_white_space_runs(a, b);
}

/// The entries filed under `key`, in their order.
pub open spec fn entries_with_key<T>(entries: Seq<(Seq<char>, Seq<T>)>, key: Seq<char>) -> Seq<(Seq<char>, Seq<T>)> {
    entries_with_key_upto(entries, key, entries.len() as int)
}

pub open spec fn entries_with_key_upto<T>(
    entries: Seq<(Seq<char>, Seq<T>)>,
    key: Seq<char>,
    k: int,
) -> Seq<(Seq<char>, Seq<T>)> {
    gather(0, k, |i: int| if entries[i].0 == key { seq![entries[i]] } else { seq![] })
}

/// The items of the entries `es`, in order.
pub open spec fn items_of<T>(es: Seq<(Seq<char>, Seq<T>)>) -> Seq<T> {
    gather(0, es.len() as int, |i: int| es[i].1)
}

/// A fact's own fields: what it reports, without the units, periods and
/// dimensions found through its references.
pub open spec fn fact_head(d: XmlDocumentView, e: int) -> FactItemView {
    FactItemView {
        id: id_of(d, e),
        prefix: or_empty(d.nodes[e].prefix),
        name: name_of(d, e),
        value: text_of(d, e),
        decimals: or_empty(attribute_of(d, e, "decimals"@)),
        context_ref: attribute_of(d, e, "contextRef"@),
        unit_ref: attribute_of(d, e, "unitRef"@),
        dimensions: seq![],
        units: seq![],
        periods: seq![],
    }
}

pub open spec fn fact_heads_upto(d: XmlDocumentView, k: int) -> Seq<FactItemView> {
    gather(
        0,
        k,
        |i: int|
            if is_fact_element(d, top_elements(d)[i] as int) {
                seq![fact_head(d, top_elements(d)[i] as int)]
            } else {
                seq![]
            },
    )
}

/// The own fields of the facts of a document, in document order.
pub open spec fn fact_heads(d: XmlDocumentView) -> Seq<FactItemView> {
    fact_heads_upto(d, top_elements(d).len() as int)
}

/// The fact `h` with the units, periods and dimensions that the tables of `d`
/// file under its references.
pub open spec fn with_tables(h: FactItemView, d: XmlDocumentView) -> FactItemView {
    FactItemView {
        id: h.id,
        prefix: h.prefix,
        name: h.name,
        value: h.value,
        decimals: h.decimals,
        context_ref: h.context_ref,
        unit_ref: h.unit_ref,
        dimensions: match h.context_ref {
            Some(c) => lookup(dimension_entries(d), c),
            None => seq![],
        },
        units: match h.unit_ref {
            Some(u) => lookup(unit_entries(d), u),
            None => seq![],
        },
        periods: match h.context_ref {
            Some(c) => lookup(period_entries(d), c),
            None => seq![],
        },
    }
}

/// For every id, the two documents file the same units, periods and
/// dimensions under it, in the same order.
pub open spec fn tables_agree(d1: XmlDocumentView, d2: XmlDocumentView) -> bool {
    forall|key: Seq<char>|
        {
            &&& #[trigger] entries_with_key(unit_entries(d1), key) == entries_with_key(unit_entries(d2), key)
            &&& entries_with_key(period_entries(d1), key) == entries_with_key(period_entries(d2), key)
            &&& entries_with_key(dimension_entries(d1), key) == entries_with_key(dimension_entries(d2), key)
        }
}

proof fn lemma_gather_ext<T>(lo: int, hi: int, f: spec_fn(int) -> Seq<T>, g: spec_fn(int) -> Seq<T>)
    requires
        forall|i: int| lo <= i < hi ==> #[trigger] f(i) == g(i),
    ensures
        gather(lo, hi, f) == gather(lo, hi, g),
    decreases hi - lo,
{
    if hi > lo {
        lemma_gather_ext(lo, hi - 1, f, g);
    }
}

proof fn lemma_items_of_push<T>(es: Seq<(Seq<char>, Seq<T>)>, x: (Seq<char>, Seq<T>))
    ensures
        items_of(es.push(x)) == items_of(es) + x.1,
{
    let n = es.len() as int;
    let e2 = es.push(x);
    lemma_gather_ext(0, n, |i: int| e2[i].1, |i: int| es[i].1);
}

proof fn lemma_lookup_upto_items<T>(entries: Seq<(Seq<char>, Seq<T>)>, key: Seq<char>, k: int)
    requires
        0 <= k <= entries.len(),
    ensures
        lookup_upto(entries, key, k) == items_of(entries_with_key_upto(entries, key, k)),
    decreases k,
{
    if k > 0 {
        lemma_lookup_upto_items(entries, key, k - 1);
        let w = entries_with_key_upto(entries, key, k - 1);
        if entries[k - 1].0 == key {
            assert(entries_with_key_upto(entries, key, k) =~= w.push(entries[k - 1]));
            lemma_items_of_push(w, entries[k - 1]);
        } else {
            assert(entries_with_key_upto(entries, key, k) =~= w);
        }
    } else {
        assert(items_of(entries_with_key_upto(entries, key, k)) =~= Seq::<T>::empty());
    }
}

/// What is filed under `key` depends only on the entries with that key and
/// their order, not on the entries with other keys among them.
pub proof fn lemma_lookup_sees_only_its_key<T>(
    e1: Seq<(Seq<char>, Seq<T>)>,
    e2: Seq<(Seq<char>, Seq<T>)>,
    key: Seq<char>,
)
    requires
        entries_with_key(e1, key) == entries_with_key(e2, key),
    ensures
        lookup(e1, key) == lookup(e2, key),
{
    lemma_lookup_upto_items(e1, key, e1.len() as int);
    lemma_lookup_upto_items(e2, key, e2.len() as int);
}

proof fn lemma_facts_from_heads(d: XmlDocumentView, k: int)
    requires
        0 <= k <= top_elements(d).len(),
    ensures
        document_facts_upto(d, k) == fact_heads_upto(d, k).map_values(|h: FactItemView| with_tables(h, d)),
    decreases k,
{
    if k > 0 {
        lemma_facts_from_heads(d, k - 1);
        let e = top_elements(d)[k - 1] as int;
        let hs = fact_heads_upto(d, k - 1);
        if is_fact_element(d, e) {
            assert(with_tables(fact_head(d, e), d) == fact_of(d, e));
            assert(fact_heads_upto(d, k) == hs + seq![fact_head(d, e)]);
            assert((hs + seq![fact_head(d, e)]).map_values(|h: FactItemView| with_tables(h, d))
                =~= hs.map_values(|h: FactItemView| with_tables(h, d)) + seq![fact_of(d, e)]);
        } else {
            assert(fact_heads_upto(d, k) == hs + Seq::<FactItemView>::empty());
            assert(hs + Seq::<FactItemView>::empty() =~= hs);
            assert(document_facts_upto(d, k) =~= document_facts_upto(d, k - 1));
        }
    }
}

/// Where the `unit` and `context` elements stand among the root's children
/// does not matter: two documents with the same fact elements (the same own
/// fields, in the same order) that file the same units, periods and
/// dimensions under each id, in the same order, give the same facts.  So a
/// fact also picks up a unit or context that comes after it.
pub proof fn lemma_facts_ignore_table_positions(d1: XmlDocumentView, d2: XmlDocumentView)
    requires
        fact_heads(d1) == fact_heads(d2),
        tables_agree(d1, d2),
    ensures
        document_facts(d1) == document_facts(d2),
{
    lemma_facts_from_heads(d1, top_elements(d1).len() as int);
    lemma_facts_from_heads(d2, top_elements(d2).len() as int);
    let hs = fact_heads(d1);
    assert forall|m: int| 0 <= m < hs.len() implies with_tables(hs[m], d1) == with_tables(hs[m], d2) by {
        let h = hs[m];
        if let Some(u) = h.unit_ref {
            assert(entries_with_key(unit_entries(d1), u) == entries_with_key(unit_entries(d2), u));
            lemma_lookup_sees_only_its_key(unit_entries(d1), unit_entries(d2), u);
        }
        if let Some(c) = h.context_ref {
            assert(entries_with_key(unit_entries(d1), c) == entries_with_key(unit_entries(d2), c));
            lemma_lookup_sees_only_its_key(period_entries(d1), period_entries(d2), c);
            lemma_lookup_sees_only_its_key(dimension_entries(d1), dimension_entries(d2), c);
        }
    }
    assert(hs.map_values(|h: FactItemView| with_tables(h, d1)) =~= hs.map_values(
        |h: FactItemView| with_tables(h, d2),
    ));
}

/// The number of explicit members with a `dimension` attribute among the
/// nodes `lo .. hi`.
pub open spec fn dimension_member_count(d: XmlDocumentView, lo: int, hi: int) -> nat
    decreases hi - lo,
{
    if hi <= lo {
        0
    } else {
        dimension_member_count(d, lo, hi - 1) + if is_dimension_member(d, hi - 1) {
            1nat
        } else {
            0nat
        }
    }
}

proof fn lemma_dimension_member_count_grows(d: XmlDocumentView, lo: int, a: int, b: int)
    requires
        lo <= a <= b,
    ensures
        dimension_member_count(d, lo, a) <= dimension_member_count(d, lo, b),
    decreases b - a,
{
    if a < b {
        lemma_dimension_member_count_grows(d, lo, a, b - 1);
    }
}

proof fn lemma_member_items_upto_one_per_member(d: XmlDocumentView, c: int, hi: int)
    requires
        c <= hi,
    ensures
        member_items_upto(d, c, hi).len() == dimension_member_count(d, c, hi),
        forall|j: int|
            c <= j < hi && is_dimension_member(d, j) ==> {
                let dm = #[trigger] member_items_upto(d, c, hi)[dimension_member_count(d, c, j) as int];
                &&& dm.key_ns == split_by(or_empty(attribute_of(d, j, "dimension"@)), seq![':'])[0]
                &&& dm.key_value == split_by(or_empty(attribute_of(d, j, "dimension"@)), seq![':'])[1]
                &&& dm.member_ns == split_by(text_of(d, j), seq![':'])[0]
                &&& dm.member_value == split_by(text_of(d, j), seq![':'])[1]
            },
    decreases hi - c,
{
    if hi > c {
        lemma_member_items_upto_one_per_member(d, c, hi - 1);
        let prev = member_items_upto(d, c, hi - 1);
        let cur = member_items_upto(d, c, hi);
        assert(cur == prev + member_item(d, hi - 1));
        assert forall|j: int|
            c <= j < hi && is_dimension_member(d, j) implies {
                let dm = #[trigger] cur[dimension_member_count(d, c, j) as int];
                &&& dm.key_ns == split_by(or_empty(attribute_of(d, j, "dimension"@)), seq![':'])[0]
                &&& dm.key_value == split_by(or_empty(attribute_of(d, j, "dimension"@)), seq![':'])[1]
                &&& dm.member_ns == split_by(text_of(d, j), seq![':'])[0]
                &&& dm.member_value == split_by(text_of(d, j), seq![':'])[1]
            } by {
            if j < hi - 1 {
                lemma_dimension_member_count_grows(d, c, j + 1, hi - 1);
                assert(dimension_member_count(d, c, j + 1) == dimension_member_count(d, c, j) + 1);
                assert(cur[dimension_member_count(d, c, j) as int] == prev[dimension_member_count(d, c, j) as int]);
            } else {
                assert(cur[dimension_member_count(d, c, j) as int] == member_item(d, j)[0]);
            }
        }
    }
}

/// An `entity` element yields one dimension per explicit member with a
/// `dimension` attribute under it, in document order, none lost or added:
/// the dimension read from the `k`-th such member stands at position `k`,
/// its key namespace and value being the first two `:`-fields of the
/// `dimension` attribute and its member namespace and value the first two
/// `:`-fields of the member's text.
pub proof fn lemma_member_items_one_per_member(d: XmlDocumentView, c: int)
    ensures
        member_items(d, c).len() == dimension_member_count(d, c, subtree_end(d, c)),
        forall|j: int|
            c <= j < subtree_end(d, c) && is_dimension_member(d, j) ==> {
                let dm = #[trigger] member_items(d, c)[dimension_member_count(d, c, j) as int];
                &&& dimension_member_count(d, c, j) < member_items(d, c).len()
                &&& dm.key_ns == split_by(or_empty(attribute_of(d, j, "dimension"@)), seq![':'])[0]
                &&& dm.key_value == split_by(or_empty(attribute_of(d, j, "dimension"@)), seq![':'])[1]
                &&& dm.member_ns == split_by(text_of(d, j), seq![':'])[0]
                &&& dm.member_value == split_by(text_of(d, j), seq![':'])[1]
            },
{
    let end = subtree_end(d, c);
    if c <= end {
        lemma_member_items_upto_one_per_member(d, c, end);
        assert forall|j: int| c <= j < end && is_dimension_member(d, j) implies dimension_member_count(d, c, j)
            < member_items(d, c).len() by {
            lemma_dimension_member_count_grows(d, c, j + 1, end);
        }
    } else {
        assert(member_items(d, c) =~= Seq::<DimensionView>::empty());
    }
}

/// Each fact row keeps the fact's own fields, and the table has one row per
/// fact, in order.
pub proof fn lemma_fact_rows_keep_fields(facts: Seq<FactItemView>)
    ensures
        fact_table_of(facts).len() == facts.len(),
        forall|i: int|
            0 <= i < facts.len() ==> {
                let row = #[trigger] fact_table_of(facts)[i];
                &&& row.id == facts[i].id
                &&& row.prefix == facts[i].prefix
                &&& row.name == facts[i].name
                &&& row.value == facts[i].value
                &&& row.decimals == facts[i].decimals
                &&& row.context_ref == facts[i].context_ref
                &&& row.unit_ref == facts[i].unit_ref
            },
{
}

/// A fact's dimension rows copy its dimensions field by field, in order,
/// each with the fact's id.
pub proof fn lemma_dimension_rows_copy_dimensions(f: FactItemView)
    ensures
        dimension_rows_of(f).len() == f.dimensions.len(),
        forall|i: int|
            0 <= i < f.dimensions.len() ==> {
                let row = #[trigger] dimension_rows_of(f)[i];
                &&& row.fact_id == f.id
                &&& row.key_ns == f.dimensions[i].key_ns
                &&& row.key_value == f.dimensions[i].key_value
                &&& row.member_ns == f.dimensions[i].member_ns
                &&& row.member_value == f.dimensions[i].member_value
            },
{
}

/// The dimension table of a list of facts is the tables of its parts one
/// after the other; of no facts it is empty, and of one fact it is that
/// fact's rows.
pub proof fn lemma_dimension_table_concat(a: Seq<FactItemView>, b: Seq<FactItemView>)
    ensures
        dimension_table_of(a + b) == dimension_table_of(a) + dimension_table_of(b),
        dimension_table_of(Seq::<FactItemView>::empty()) == Seq::<DimensionTableRowView>::empty(),
        forall|f: FactItemView| #[trigger] dimension_table_of(seq![f]) == dimension_rows_of(f),
    decreases b.len(),
{
    assert(dimension_table_of(Seq::<FactItemView>::empty()) =~= Seq::<DimensionTableRowView>::empty());
    assert forall|f: FactItemView| #[trigger] dimension_table_of(seq![f]) == dimension_rows_of(f) by {
        let one = seq![f];
        assert(dimension_table_upto(one, 0) =~= Seq::<DimensionTableRowView>::empty());
        assert(dimension_table_upto(one, 1) == dimension_table_upto(one, 0) + dimension_rows_of(one[0]));
        assert(dimension_table_upto(one, 1) =~= dimension_rows_of(f));
    }
    if b.len() == 0 {
        assert(a + b =~= a);
        assert(dimension_table_of(b) =~= Seq::<DimensionTableRowView>::empty());
        assert(dimension_table_of(a) + dimension_table_of(b) =~= dimension_table_of(a));
    } else {
        let b0 = b.drop_last();
        lemma_dimension_table_concat(a, b0);
        let ab = a + b;
        assert((a + b).drop_last() =~= a + b0);
        lemma_dimension_table_prefix(ab, (ab.len() - 1) as int);
        lemma_dimension_table_prefix(b, (b.len() - 1) as int);
        assert(dimension_table_upto(ab, ab.len() - 1) == dimension_table_of(a + b0));
        assert(dimension_table_upto(b, b.len() - 1) == dimension_table_of(b0));
        assert(ab[ab.len() - 1] == b[b.len() - 1]);
        assert(dimension_table_of(ab) == dimension_table_upto(ab, ab.len() - 1) + dimension_rows_of(ab[ab.len() - 1]));
        assert(dimension_table_of(b) == dimension_table_upto(b, b.len() - 1) + dimension_rows_of(b[b.len() - 1]));
    }
}

proof fn lemma_dimension_table_prefix(fs: Seq<FactItemView>, k: int)
    requires
        0 <= k <= fs.len(),
    ensures
        dimension_table_upto(fs, k) == dimension_table_of(fs.take(k)),
{
    let t = fs.take(k);
    lemma_gather_ext(0, k, |i: int| dimension_rows_of(fs[i]), |i: int| dimension_rows_of(t[i]));
}

} // verus!
