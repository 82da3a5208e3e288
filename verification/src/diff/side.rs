//! One side of a comparison: the rows of a phase and their keys.

use std::collections::HashMap;
use std::ops::Range;
use std::sync::Arc;
use vstd::prelude::*;
#[allow(unused_imports)]
use vstd::string::*;

#[allow(unused_imports)]
use super::canon::canonical;
use super::canon::canonicalize;
use super::shape::{operand_shape, NodeShape};
#[allow(unused_imports)]
use super::shape::{operands_of, ShapeModel};
use crate::model::{
    count_up, BlockRef, CompilationSection, IRNode, LineInfo, NodeId, NodeRef, ParsedCompilation,
    SCHEDULE_ONLY,
};
#[allow(unused_imports)]
use crate::model::{next_count, CompilationModel, LineModel, NodeModel, ParsedModel};
use crate::parse::cache::share;
use crate::source::LogBuffer;
#[allow(unused_imports)]
use crate::source::LogModel;
use crate::text;
use crate::view::{model_rows, FoldSet, ViewRow};
#[allow(unused_imports)]
use crate::view::{info_at, info_model, modeled_rows, FoldKey, RowRules};

verus! {

/// How far a chain of `Identity` nodes is followed before it is taken for a
/// cycle.
pub const MAX_IDENTITY_HOPS: usize = 64;

/// What makes two rows render the same thing.
pub enum Key {
    /// The banner of a phase. Two phases are named differently, but their
    /// banners always belong together.
    Banner,
    Header(u32),
    /// A node, by its id.
    Node(NodeId),
    /// A node of another compilation, by its opcode and its inputs. An input
    /// that the phase defines counts by its place in definition order.
    Structure(String, Vec<(bool, u32)>),
    /// Any other line, by its canonical text.
    Text(String),
}

/// The view of a `Key`.
pub enum KeyModel {
    Banner,
    Header(u32),
    Node(NodeId),
    Structure(Seq<char>, Seq<(bool, u32)>),
    Text(Seq<char>),
}

impl View for Key {
    type V = KeyModel;

    open spec fn view(&self) -> KeyModel {
        match self {
            Key::Banner => KeyModel::Banner,
            Key::Header(b) => KeyModel::Header(*b),
            Key::Node(n) => KeyModel::Node(*n),
            Key::Structure(opcode, inputs) => KeyModel::Structure(opcode@, inputs@),
            Key::Text(t) => KeyModel::Text(t@),
        }
    }
}

/// The views of keys.
pub open spec fn key_models(keys: Seq<Key>) -> Seq<KeyModel> {
    keys.map_values(|k: Key| k@)
}

/// The views of shapes.
pub open spec fn shape_models(nodes: Map<NodeId, NodeShape>) -> Map<NodeId, ShapeModel> {
    nodes.map_values(|s: NodeShape| s@)
}

/// One side of a comparison.
pub struct DiffSide {
    /// The rows of the phase, unfolded and with annotations, whatever the
    /// viewer folds.
    pub rows: Vec<ViewRow>,
    pub parsed: Arc<ParsedCompilation>,
    /// The source whose lines the rows show.
    pub source: usize,
    /// The key of each row.
    pub keys: Vec<Key>,
    /// The node that each row defines.
    pub row_nodes: Vec<Option<NodeId>>,
    /// The shape of each node.
    pub nodes: HashMap<NodeId, NodeShape>,
    /// Where each `Identity` node points.
    pub identity: HashMap<NodeId, NodeId>,
}

/// The view of a `DiffSide`.
#[verifier::ext_equal]
pub struct SideModel {
    pub rows: Seq<ViewRow>,
    pub parsed: ParsedModel,
    pub source: int,
    pub keys: Seq<KeyModel>,
    pub row_nodes: Seq<Option<NodeId>>,
    pub nodes: Map<NodeId, ShapeModel>,
    pub identity: Map<NodeId, NodeId>,
}

impl View for DiffSide {
    type V = SideModel;

    open spec fn view(&self) -> SideModel {
        SideModel {
            rows: self.rows@,
            parsed: (*self.parsed)@,
            source: self.source as int,
            keys: key_models(self.keys@),
            row_nodes: self.row_nodes@,
            nodes: shape_models(self.nodes@),
            identity: self.identity@,
        }
    }
}

/// What one side of a comparison is built from.
pub struct SideInput<'a> {
    pub buffer: &'a LogBuffer,
    pub parsed: &'a Arc<ParsedCompilation>,
    pub section: &'a CompilationSection,
    /// Which phase of the section.
    pub phase: usize,
    /// Source and compilation: node ids mean the same thing only where both
    /// agree.
    pub comp_id: (usize, usize),
}

impl<'a> SideInput<'a> {
    /// The phase exists, and the buffer is in order.
    pub open spec fn valid(&self) -> bool {
        self.buffer.wf() && self.phase < self.section.phases@.len()
    }
}

// ---------------------------------------------------------------------------
// What a row is
// ---------------------------------------------------------------------------

/// The classification of a row, where it has one.
pub open spec fn info_of(parsed: ParsedModel, row: ViewRow) -> Option<LineModel> {
    match row.info {
        Some((p, i)) => if p < parsed.phases.len() {
            info_at(parsed.phases[p as int].infos, i as int)
        } else {
            None
        },
        None => None,
    }
}

/// The node that a row defines.
pub open spec fn node_of(parsed: ParsedModel, row: ViewRow) -> Option<NodeModel> {
    match info_of(parsed, row) {
        Some(LineModel::Node(node)) => if node.id != SCHEDULE_ONLY {
            Some(node)
        } else {
            None
        },
        _ => None,
    }
}

/// The id of the node that a row defines.
pub open spec fn node_id_of(parsed: ParsedModel, row: ViewRow) -> Option<NodeId> {
    match node_of(parsed, row) {
        Some(node) => Some(node.id),
        None => None,
    }
}

/// The opcode of a node.
pub open spec fn opcode_name(parsed: ParsedModel, node: NodeModel) -> Seq<char> {
    if (node.opcode as int) < parsed.opcodes.len() {
        parsed.opcodes[node.opcode as int]
    } else {
        Seq::empty()
    }
}

/// The nodes that references name.
pub open spec fn ref_nodes(refs: Seq<NodeRef>) -> Seq<NodeId> {
    refs.map_values(|r: NodeRef| r.node)
}

/// The blocks that references name.
pub open spec fn ref_blocks(refs: Seq<BlockRef>) -> Seq<u32> {
    refs.map_values(|r: BlockRef| r.block)
}

/// The shape of a node on the line `s`.
pub open spec fn shape_of(parsed: ParsedModel, node: NodeModel, s: Seq<u8>) -> ShapeModel {
    ShapeModel {
        opcode: opcode_name(parsed, node),
        inputs: ref_nodes(node.inputs),
        targets: ref_blocks(node.targets),
        operands: operands_of(s, node),
    }
}

/// A node that only stands for another one.
pub open spec fn is_identity(parsed: ParsedModel, node: NodeModel) -> bool {
    opcode_name(parsed, node) == "Identity"@ && node.inputs.len() == 1
}

/// Definition order: the place of each node, and the next place.
#[verifier::ext_equal]
pub struct Numbering {
    pub places: Map<NodeId, u32>,
    pub next: u32,
}

/// The definition order of the first `n` rows.
pub open spec fn numbering(parsed: ParsedModel, rows: Seq<ViewRow>, n: int) -> Numbering
    decreases n,
{
    if n <= 0 {
        Numbering { places: Map::empty(), next: 0 }
    } else {
        let before = numbering(parsed, rows, n - 1);
        match node_id_of(parsed, rows[n - 1]) {
            Some(id) => if before.places.dom().contains(id) {
                before
            } else {
                Numbering {
                    places: before.places.insert(id, before.next),
                    next: next_count(before.next),
                }
            },
            None => before,
        }
    }
}

/// An input by its place in definition order, or by its id where the phase
/// does not define it.
pub open spec fn renumbered(places: Map<NodeId, u32>, id: NodeId) -> (bool, u32) {
    if places.dom().contains(id) {
        (false, places[id])
    } else {
        (true, id)
    }
}

/// The key of a row.
pub open spec fn key_of(
    parsed: ParsedModel,
    buffer: LogModel,
    row: ViewRow,
    by_id: bool,
    places: Map<NodeId, u32>,
) -> KeyModel {
    match info_of(parsed, row) {
        Some(LineModel::Banner) => KeyModel::Banner,
        Some(LineModel::BlockHeader { block }) => KeyModel::Header(block),
        _ => match node_of(parsed, row) {
            Some(node) => if by_id {
                KeyModel::Node(node.id)
            } else {
                KeyModel::Structure(
                    opcode_name(parsed, node),
                    ref_nodes(node.inputs).map_values(|id: NodeId| renumbered(places, id)),
                )
            },
            None => KeyModel::Text(canonical(buffer.line_chars(row.line as int))),
        },
    }
}

/// The shapes that the first `n` rows define.
pub open spec fn shapes(parsed: ParsedModel, buffer: LogModel, rows: Seq<ViewRow>, n: int) -> Map<
    NodeId,
    ShapeModel,
>
    decreases n,
{
    if n <= 0 {
        Map::empty()
    } else {
        let before = shapes(parsed, buffer, rows, n - 1);
        match node_of(parsed, rows[n - 1]) {
            Some(node) => before.insert(
                node.id,
                shape_of(parsed, node, buffer.line_text(rows[n - 1].line as int)),
            ),
            None => before,
        }
    }
}

/// The `Identity` nodes that the first `n` rows define.
pub open spec fn identities(parsed: ParsedModel, rows: Seq<ViewRow>, n: int) -> Map<NodeId, NodeId>
    decreases n,
{
    if n <= 0 {
        Map::empty()
    } else {
        let before = identities(parsed, rows, n - 1);
        match node_of(parsed, rows[n - 1]) {
            Some(node) => if is_identity(parsed, node) {
                before.insert(node.id, node.inputs[0].node)
            } else {
                before
            },
            None => before,
        }
    }
}

/// One side, from its rows.
pub open spec fn side_from(
    parsed: ParsedModel,
    buffer: LogModel,
    rows: Seq<ViewRow>,
    source: int,
    by_id: bool,
) -> SideModel {
    let places = numbering(parsed, rows, rows.len() as int).places;
    SideModel {
        rows,
        parsed,
        source,
        keys: rows.map_values(|row: ViewRow| key_of(parsed, buffer, row, by_id, places)),
        row_nodes: rows.map_values(|row: ViewRow| node_id_of(parsed, row)),
        nodes: shapes(parsed, buffer, rows, rows.len() as int),
        identity: identities(parsed, rows, rows.len() as int),
    }
}

/// The rows of one phase, unfolded and with annotations.
pub open spec fn phase_view(
    buffer: LogModel,
    parsed: ParsedModel,
    section: CompilationModel,
    phase: int,
    comp_id: (usize, usize),
) -> Seq<ViewRow> {
    modeled_rows(
        section,
        RowRules {
            first: section.phases[phase].start,
            end: section.phases[phase].end,
            source: comp_id.0,
            comp: comp_id.1,
            folded: Set::<FoldKey>::empty(),
            show_annotations: true,
            lens: None,
            parsed,
            buffer,
        },
    )
}

/// One side of a comparison: a phase of a compilation.
pub open spec fn side_at(
    buffer: LogModel,
    parsed: ParsedModel,
    section: CompilationModel,
    phase: int,
    comp_id: (usize, usize),
    by_id: bool,
) -> SideModel {
    side_from(
        parsed,
        buffer,
        phase_view(buffer, parsed, section, phase, comp_id),
        comp_id.0 as int,
        by_id,
    )
}

/// One side of a comparison.
pub open spec fn side_of(input: SideInput<'_>, by_id: bool) -> SideModel {
    side_at(
        input.buffer@,
        (**input.parsed)@,
        input.section@,
        input.phase as int,
        input.comp_id,
        by_id,
    )
}

// ---------------------------------------------------------------------------
// Building a side
// ---------------------------------------------------------------------------

fn row_info<'a>(parsed: &'a ParsedCompilation, row: &ViewRow) -> (info: Option<&'a LineInfo>)
    ensures
        info_model(info) == info_of(parsed@, *row),
{
    match row.info {
        Some((p, i)) => {
            assert(parsed@.phases.len() == parsed.phases@.len());
            if p < parsed.phases.len() {
                assert(parsed@.phases[p as int] == parsed.phases@[p as int]@);
                let infos = &parsed.phases[p].infos;
                if i < infos.len() {
                    Some(&infos[i])
                } else {
                    None
                }
            } else {
                None
            }
        },
        None => None,
    }
}

/// An optional node as the model has it.
pub open spec fn node_model(node: Option<&IRNode>) -> Option<NodeModel> {
    match node {
        Some(n) => Some(n@),
        None => None,
    }
}

/// The node that a row defines.
pub fn row_node<'a>(parsed: &'a ParsedCompilation, row: &ViewRow) -> (node: Option<&'a IRNode>)
    ensures
        node_model(node) == node_of(parsed@, *row),
{
    match row_info(parsed, row) {
        Some(LineInfo::Node(node)) => if node.id != SCHEDULE_ONLY {
            Some(node)
        } else {
            None
        },
        _ => None,
    }
}

fn node_opcode(parsed: &ParsedCompilation, node: &IRNode) -> (name: String)
    ensures
        name@ == opcode_name(parsed@, node@),
{
    assert(parsed@.opcodes.len() == parsed.opcodes@.len());
    let k: usize = node.opcode as usize;
    if k < parsed.opcodes.len() {
        assert(parsed@.opcodes[k as int] == parsed.opcodes@[k as int]@);
        parsed.opcodes[k].clone()
    } else {
        let none = String::new();
        assert(none@ =~= Seq::<char>::empty());
        none
    }
}

fn named_nodes(refs: &Vec<NodeRef>) -> (ids: Vec<NodeId>)
    ensures
        ids@ == ref_nodes(refs@),
{
    let mut ids: Vec<NodeId> = Vec::new();
    let mut k: usize = 0;
    while k < refs.len()
        invariant
            k <= refs@.len(),
            ids@ == ref_nodes(refs@).take(k as int),
        decreases refs.len() - k,
    {
        ids.push(refs[k].node);
        assert(ids@ =~= ref_nodes(refs@).take(k + 1));
        k += 1;
    }
    assert(ids@ =~= ref_nodes(refs@));
    ids
}

fn named_blocks(refs: &Vec<BlockRef>) -> (ids: Vec<u32>)
    ensures
        ids@ == ref_blocks(refs@),
{
    let mut ids: Vec<u32> = Vec::new();
    let mut k: usize = 0;
    while k < refs.len()
        invariant
            k <= refs@.len(),
            ids@ == ref_blocks(refs@).take(k as int),
        decreases refs.len() - k,
    {
        ids.push(refs[k].block);
        assert(ids@ =~= ref_blocks(refs@).take(k + 1));
        k += 1;
    }
    assert(ids@ =~= ref_blocks(refs@));
    ids
}

fn number_nodes(parsed: &ParsedCompilation, rows: &Vec<ViewRow>) -> (places: HashMap<NodeId, u32>)
    ensures
        places@ == numbering(parsed@, rows@, rows@.len() as int).places,
{
    broadcast use vstd::std_specs::hash::group_hash_axioms;

    let mut places: HashMap<NodeId, u32> = HashMap::new();
    let mut next: u32 = 0;
    let mut k: usize = 0;
    while k < rows.len()
        invariant
            k <= rows@.len(),
            places@ == numbering(parsed@, rows@, k as int).places,
            next == numbering(parsed@, rows@, k as int).next,
        decreases rows.len() - k,
    {
        if let Some(node) = row_node(parsed, &rows[k]) {
            if !places.contains_key(&node.id) {
                places.insert(node.id, next);
                next = count_up(next);
            }
        }
        k += 1;
    }
    places
}

fn renumber(places: &HashMap<NodeId, u32>, ids: &Vec<NodeId>) -> (out: Vec<(bool, u32)>)
    ensures
        out@ == ids@.map_values(|id: NodeId| renumbered(places@, id)),
{
    broadcast use vstd::std_specs::hash::group_hash_axioms;

    let mut out: Vec<(bool, u32)> = Vec::new();
    let mut k: usize = 0;
    let ghost all = ids@.map_values(|id: NodeId| renumbered(places@, id));
    while k < ids.len()
        invariant
            k <= ids@.len(),
            all == ids@.map_values(|id: NodeId| renumbered(places@, id)),
            out@ == all.take(k as int),
        decreases ids.len() - k,
    {
        let id: NodeId = ids[k];
        match places.get(&id) {
            Some(place) => {
                out.push((false, *place));
            },
            None => {
                out.push((true, id));
            },
        }
        assert(out@ =~= all.take(k + 1));
        k += 1;
    }
    assert(out@ =~= all);
    out
}

fn node_shape(parsed: &ParsedCompilation, node: &IRNode, s: &[u8]) -> (shape: NodeShape)
    ensures
        shape@ == shape_of(parsed@, node@, s@),
{
    NodeShape {
        opcode: node_opcode(parsed, node),
        inputs: named_nodes(&node.inputs),
        targets: named_blocks(&node.targets),
        operands: operand_shape(s, node),
    }
}

fn row_key(
    parsed: &ParsedCompilation,
    buffer: &LogBuffer,
    row: &ViewRow,
    by_id: bool,
    places: &HashMap<NodeId, u32>,
) -> (key: Key)
    requires
        buffer.wf(),
    ensures
        key@ == key_of(parsed@, buffer@, *row, by_id, places@),
{
    match row_info(parsed, row) {
        Some(LineInfo::Banner) => Key::Banner,
        Some(LineInfo::BlockHeader { block }) => Key::Header(*block),
        _ => match row_node(parsed, row) {
            Some(node) => if by_id {
                Key::Node(node.id)
            } else {
                let ids = named_nodes(&node.inputs);
                Key::Structure(node_opcode(parsed, node), renumber(places, &ids))
            },
            None => {
                let line = buffer.line_text(row.line);
                Key::Text(canonicalize(line.as_str()))
            },
        },
    }
}

impl DiffSide {
    /// Builds one side of a comparison. Nodes are keyed by id where `by_id`
    /// holds, and by structure otherwise.
    pub fn build(input: &SideInput<'_>, by_id: bool) -> (side: DiffSide)
        requires
            input.valid(),
        ensures
            side@ == side_of(*input, by_id),
    {
        broadcast use vstd::std_specs::hash::group_hash_axioms;

        let section = input.section;
        let buffer = input.buffer;
        let parsed: &ParsedCompilation = &**input.parsed;
        let lines = &section.phases[input.phase].lines;
        let window: Range<usize> = Range { start: lines.start, end: lines.end };
        let folded = FoldSet::new();
        assert(section@.phases[input.phase as int] == section.phases@[input.phase as int]@);
        let rows = model_rows(
            parsed,
            section,
            &window,
            input.comp_id.0,
            input.comp_id.1,
            &folded,
            true,
            buffer,
            None,
        );
        let places = number_nodes(parsed, &rows);
        let mut keys: Vec<Key> = Vec::new();
        let mut row_nodes: Vec<Option<NodeId>> = Vec::new();
        let mut nodes: HashMap<NodeId, NodeShape> = HashMap::new();
        let mut identity: HashMap<NodeId, NodeId> = HashMap::new();
        let ghost model = side_of(*input, by_id);
        let mut k: usize = 0;
        assert(shape_models(nodes@) =~= Map::<NodeId, ShapeModel>::empty());
        while k < rows.len()
            invariant
                buffer.wf(),
                k <= rows@.len(),
                model == side_from(parsed@, buffer@, rows@, model.source, by_id),
                places@ == numbering(parsed@, rows@, rows@.len() as int).places,
                key_models(keys@) == model.keys.take(k as int),
                row_nodes@ == model.row_nodes.take(k as int),
                shape_models(nodes@) == shapes(parsed@, buffer@, rows@, k as int),
                identity@ == identities(parsed@, rows@, k as int),
            decreases rows.len() - k,
        {
            let row = &rows[k];
            let key = row_key(parsed, buffer, row, by_id, &places);
            let ghost seen = key_models(keys@);
            let ghost this = key@;
            keys.push(key);
            assert(key_models(keys@) =~= seen.push(this));
            assert(model.keys[k as int] == this);
            assert(key_models(keys@) =~= model.keys.take(k + 1));
            match row_node(parsed, row) {
                Some(node) => {
                    row_nodes.push(Some(node.id));
                    let line = buffer.line_text(row.line);
                    let shape = node_shape(parsed, node, line.as_str().as_bytes());
                    if shape.opcode == text::owned("Identity") && node.inputs.len() == 1 {
                        identity.insert(node.id, node.inputs[0].node);
                    }
                    let ghost before = nodes@;
                    let ghost it = shape;
                    nodes.insert(node.id, shape);
                    assert(shape_models(nodes@) =~= shape_models(before).insert(node.id, it@));
                },
                None => {
                    row_nodes.push(None);
                },
            }
            assert(row_nodes@ =~= model.row_nodes.take(k + 1));
            k += 1;
        }
        assert(model.keys.take(k as int) =~= model.keys);
        assert(model.row_nodes.take(k as int) =~= model.row_nodes);
        DiffSide {
            rows,
            parsed: share(input.parsed),
            source: input.comp_id.0,
            keys,
            row_nodes,
            nodes,
            identity,
        }
    }

    /// The node that an id stands for, through `Identity` nodes.
    pub fn resolve_identity(&self, id: NodeId) -> (at: NodeId)
        ensures
            at == resolved(self@.identity, id, MAX_IDENTITY_HOPS as int),
    {
        broadcast use vstd::std_specs::hash::group_hash_axioms;

        let mut at: NodeId = id;
        let mut left: usize = MAX_IDENTITY_HOPS;
        while left > 0
            invariant
                resolved(self.identity@, id, MAX_IDENTITY_HOPS as int) == resolved(
                    self.identity@,
                    at,
                    left as int,
                ),
            decreases left,
        {
            match self.identity.get(&at) {
                Some(next) => {
                    at = *next;
                },
                None => {
                    return at;
                },
            }
            left -= 1;
        }
        at
    }
}

/// The node that `id` stands for, following at most `hops` identities.
pub open spec fn resolved(identity: Map<NodeId, NodeId>, id: NodeId, hops: int) -> NodeId
    decreases hops,
{
    if hops <= 0 || !identity.dom().contains(id) {
        id
    } else {
        resolved(identity, identity[id], hops - 1)
    }
}

} // verus!
