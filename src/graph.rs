//! The binary index seen as a graph of vertices, properties and edges, and
//! the resolution steps that a query engine drives over it.

use crate::adapter::{covering_index, file_instruction_indices, file_positions, indices_view, pairs_view, Adapter};
use crate::instruction::{strings_view, InstructionModel};
use crate::line_table::{has_address, LineEntry};
use crate::location::LocationModel;
use vstd::prelude::*;

verus! {

/// A block of straight-line code. Nothing builds these yet.
#[derive(Clone, Debug)]
pub struct BasicBlock {
    pub base_address: u64,
    pub instructions: Vec<usize>,
    pub children: Vec<usize>,
}

/// A function of the binary. Nothing builds these yet.
#[derive(Clone, Debug)]
pub struct Function {
    pub address: u64,
    pub name: String,
    pub stack_size: u64,
    pub basic_blocks: BasicBlock,
}

/// A node of the graph. Instructions and locations are handles into the
/// index that produced them: the position of an instruction, and the entry
/// and position of a location.
#[derive(Clone, Debug)]
pub enum Vertex {
    BasicBlock(BasicBlock),
    DecodedInstruction(usize),
    Function(Function),
    SourceLocation(usize, usize),
}

/// Why a resolution step cannot be carried out.
#[derive(Clone, Copy, Debug, PartialEq, Eq, Structural)]
pub enum ResolveError {
    /// No entry point has this name.
    UnknownEntryPoint,
    /// The entry point needs a parameter that was not given.
    MissingParameter,
    /// No vertex type has this name.
    UnknownType,
    /// The type has no property of this name.
    UnknownProperty,
    /// The type has no edge of this name.
    UnknownEdge,
    /// The vertex type exists but nothing backs it yet.
    UnsupportedVertexKind,
    /// The edge exists but nothing backs it yet.
    UnsupportedEdge,
    /// The vertex is not of the type the step was asked about.
    VertexKindMismatch,
    /// The vertex points past what this index holds.
    StaleVertex,
}

/// A property's value.
#[derive(Debug, PartialEq)]
pub enum PropertyValue {
    Null,
    Uint64(u64),
    String(String),
    List(Vec<String>),
}

/// The mathematical value of a `PropertyValue`.
pub ghost enum ValueModel {
    Null,
    Uint64(u64),
    Str(Seq<char>),
    List(Seq<Seq<char>>),
}

impl View for PropertyValue {
    type V = ValueModel;

    open spec fn view(&self) -> ValueModel {
        match self {
            PropertyValue::Null => ValueModel::Null,
            PropertyValue::Uint64(n) => ValueModel::Uint64(*n),
            PropertyValue::String(s) => ValueModel::Str(s@),
            PropertyValue::List(v) => ValueModel::List(strings_view(v@)),
        }
    }
}

/// The name of a vertex's type.
pub open spec fn kind_name(v: Vertex) -> Seq<char> {
    match v {
        Vertex::BasicBlock(_) => "BasicBlock"@,
        Vertex::DecodedInstruction(_) => "DecodedInstruction"@,
        Vertex::Function(_) => "Function"@,
        Vertex::SourceLocation(_, _) => "SourceLocation"@,
    }
}

/// Whether `ty` names a type of the graph.
pub open spec fn is_type_name(ty: Seq<char>) -> bool {
    ty == "BasicBlock"@ || ty == "DecodedInstruction"@ || ty == "Function"@ || ty == "SourceLocation"@
}

/// Whether two texts are equal.
pub fn same_text(a: &str, b: &str) -> (r: bool)
    ensures
        r == (a@ == b@),
{
    String::from_str(a) == String::from_str(b)
}

impl Vertex {
    /// The name of the vertex's type.
    pub fn typename(&self) -> (r: &'static str)
        ensures
            r@ == kind_name(*self),
    {
        match self {
            Vertex::BasicBlock(_) => "BasicBlock",
            Vertex::DecodedInstruction(_) => "DecodedInstruction",
            Vertex::Function(_) => "Function",
            Vertex::SourceLocation(_, _) => "SourceLocation",
        }
    }
}

/// The `__typename` of the vertex in a slot; null where there is none.
fn typename_value(vertex: &Option<Vertex>) -> (r: PropertyValue)
    ensures
        r@ == match *vertex {
            Some(v) => ValueModel::Str(kind_name(v)),
            None => ValueModel::Null,
        },
{
    match vertex {
        Some(v) => PropertyValue::String(String::from_str(v.typename())),
        None => PropertyValue::Null,
    }
}

/// Copies a list of strings.
fn copy_strings(v: &Vec<String>) -> (r: Vec<String>)
    ensures
        strings_view(r@) == strings_view(v@),
{
    let mut out: Vec<String> = Vec::new();
    let mut i: usize = 0;
    while i < v.len()
        invariant
            0 <= i <= v@.len(),
            strings_view(out@) == strings_view(v@.take(i as int)),
        decreases v.len() - i,
    {
        let c = v[i].clone();
        assert(c@ == v@[i as int]@);
        let ghost prev = out@;
        out.push(c);
        assert(strings_view(out@) =~= strings_view(prev).push(c@));
        assert(strings_view(out@) =~= strings_view(v@.take(i + 1)));
        i += 1;
    }
    assert(v@.take(i as int) =~= v@);
    out
}

/// The value of an instruction's property, where it has one of that name.
pub open spec fn instruction_value(i: InstructionModel, prop: Seq<char>) -> Option<ValueModel> {
    if prop == "address"@ {
        Some(ValueModel::Uint64(i.address))
    } else if prop == "length"@ {
        Some(ValueModel::Uint64(i.length as u64))
    } else if prop == "name"@ {
        Some(ValueModel::Str(i.name))
    } else if prop == "operands"@ {
        Some(ValueModel::List(i.operands))
    } else {
        None
    }
}

/// The value of a location's property, where it has one of that name.
pub open spec fn location_value(l: LocationModel, prop: Seq<char>) -> Option<ValueModel> {
    if prop == "column"@ {
        Some(ValueModel::Uint64(l.column))
    } else if prop == "file"@ {
        Some(ValueModel::Str(l.file))
    } else if prop == "line"@ {
        Some(ValueModel::Uint64(l.line))
    } else {
        None
    }
}

/// Whether the pair of a type and a property name is one the graph can read;
/// the error says why not.
pub open spec fn check_property(ty: Seq<char>, prop: Seq<char>) -> Option<ResolveError> {
    if prop == "__typename"@ {
        None
    } else if ty == "DecodedInstruction"@ {
        if prop == "address"@ || prop == "length"@ || prop == "name"@ || prop == "operands"@ {
            None
        } else {
            Some(ResolveError::UnknownProperty)
        }
    } else if ty == "SourceLocation"@ {
        if prop == "column"@ || prop == "file"@ || prop == "line"@ {
            None
        } else {
            Some(ResolveError::UnknownProperty)
        }
    } else if ty == "BasicBlock"@ {
        if prop == "base_address"@ {
            None
        } else {
            Some(ResolveError::UnknownProperty)
        }
    } else if ty == "Function"@ {
        if prop == "address"@ || prop == "name"@ || prop == "stack_size"@ {
            None
        } else {
            Some(ResolveError::UnknownProperty)
        }
    } else {
        Some(ResolveError::UnknownType)
    }
}

/// Checks a type and a property name against what the graph can read.
pub fn check_property_names(vertex_type: &str, property_name: &str) -> (r: Option<ResolveError>)
    ensures
        r == check_property(vertex_type@, property_name@),
{
    if same_text(property_name, "__typename") {
        None
    } else if same_text(vertex_type, "DecodedInstruction") {
        if same_text(property_name, "address") || same_text(property_name, "length") || same_text(
            property_name,
            "name",
        ) || same_text(property_name, "operands") {
            None
        } else {
            Some(ResolveError::UnknownProperty)
        }
    } else if same_text(vertex_type, "SourceLocation") {
        if same_text(property_name, "column") || same_text(property_name, "file") || same_text(
            property_name,
            "line",
        ) {
            None
        } else {
            Some(ResolveError::UnknownProperty)
        }
    } else if same_text(vertex_type, "BasicBlock") {
        if same_text(property_name, "base_address") {
            None
        } else {
            Some(ResolveError::UnknownProperty)
        }
    } else if same_text(vertex_type, "Function") {
        if same_text(property_name, "address") || same_text(property_name, "name") || same_text(
            property_name,
            "stack_size",
        ) {
            None
        } else {
            Some(ResolveError::UnknownProperty)
        }
    } else {
        Some(ResolveError::UnknownType)
    }
}

proof fn lemma_type_names_differ()
    ensures
        "DecodedInstruction"@ != "SourceLocation"@,
        "DecodedInstruction"@ != "BasicBlock"@,
        "DecodedInstruction"@ != "Function"@,
        "SourceLocation"@ != "BasicBlock"@,
        "SourceLocation"@ != "Function"@,
        "BasicBlock"@ != "Function"@,
{
    reveal_strlit("DecodedInstruction");
    reveal_strlit("SourceLocation");
    reveal_strlit("BasicBlock");
    reveal_strlit("Function");
    assert("DecodedInstruction"@.len() == 18);
    assert("SourceLocation"@.len() == 14);
    assert("BasicBlock"@.len() == 10);
    assert("Function"@.len() == 8);
}

pub open spec fn value_error(r: Result<ValueModel, ResolveError>) -> Option<ResolveError> {
    match r {
        Ok(_) => None,
        Err(e) => Some(e),
    }
}

/// Whether the handle points at a location that `t` holds.
pub open spec fn location_in(t: Seq<(u64, Seq<LocationModel>)>, e: usize, j: usize) -> bool {
    e < t.len() && j < t[e as int].1.len()
}

impl Adapter {
    /// The value of property `prop` of type `ty` on the vertex in one slot of
    /// a resolution; a slot with no vertex holds a null value.
    pub open spec fn value_of(&self, vertex: Option<Vertex>, ty: Seq<char>, prop: Seq<char>) -> Result<
        ValueModel,
        ResolveError,
    > {
        match check_property(ty, prop) {
            Some(e) => Err(e),
            None => match vertex {
                None => Ok(ValueModel::Null),
                Some(v) => if prop == "__typename"@ {
                    Ok(ValueModel::Str(kind_name(v)))
                } else {
                    match v {
                        Vertex::DecodedInstruction(k) => if ty != "DecodedInstruction"@ {
                            Err(ResolveError::VertexKindMismatch)
                        } else if k < self.text().len() {
                            Ok(instruction_value(self.text()[k as int], prop).unwrap())
                        } else {
                            Err(ResolveError::StaleVertex)
                        },
                        Vertex::SourceLocation(e, j) => if ty != "SourceLocation"@ {
                            Err(ResolveError::VertexKindMismatch)
                        } else if location_in(self.lines(), e, j) {
                            Ok(location_value(self.lines()[e as int].1[j as int], prop).unwrap())
                        } else {
                            Err(ResolveError::StaleVertex)
                        },
                        Vertex::BasicBlock(_) => if ty == "BasicBlock"@ {
                            Err(ResolveError::UnsupportedVertexKind)
                        } else {
                            Err(ResolveError::VertexKindMismatch)
                        },
                        Vertex::Function(_) => if ty == "Function"@ {
                            Err(ResolveError::UnsupportedVertexKind)
                        } else {
                            Err(ResolveError::VertexKindMismatch)
                        },
                    }
                },
            },
        }
    }

    /// Why property `property_name` of type `vertex_type` cannot be read on
    /// the vertex in a slot; none when it can.
    pub fn property_error(&self, vertex: &Option<Vertex>, vertex_type: &str, property_name: &str) -> (r: Option<
        ResolveError,
    >)
        ensures
            r == value_error(self.value_of(*vertex, vertex_type@, property_name@)),
    {
        proof {
            lemma_type_names_differ();
        }
        if let Some(e) = check_property_names(vertex_type, property_name) {
            return Some(e);
        }
        match vertex {
            None => None,
            Some(v) => {
                if same_text(property_name, "__typename") {
                    return None;
                }
                match v {
                    Vertex::DecodedInstruction(k) => {
                        if !same_text(vertex_type, "DecodedInstruction") {
                            Some(ResolveError::VertexKindMismatch)
                        } else if *k < self.text_section().len() {
                            None
                        } else {
                            Some(ResolveError::StaleVertex)
                        }
                    },
                    Vertex::SourceLocation(e, j) => {
                        let entries = self.debug_info().entries();
                        if !same_text(vertex_type, "SourceLocation") {
                            Some(ResolveError::VertexKindMismatch)
                        } else if *e < entries.len() && *j < entries[*e].locations.len() {
                            assert(entries@[*e as int]@ == self.lines()[*e as int]);
                            None
                        } else {
                            proof {
                                if location_in(self.lines(), *e, *j) {
                                    assert(entries@[*e as int]@ == self.lines()[*e as int]);
                                }
                            }
                            Some(ResolveError::StaleVertex)
                        }
                    },
                    Vertex::BasicBlock(_) => {
                        if same_text(vertex_type, "BasicBlock") {
                            Some(ResolveError::UnsupportedVertexKind)
                        } else {
                            Some(ResolveError::VertexKindMismatch)
                        }
                    },
                    Vertex::Function(_) => {
                        if same_text(vertex_type, "Function") {
                            Some(ResolveError::UnsupportedVertexKind)
                        } else {
                            Some(ResolveError::VertexKindMismatch)
                        }
                    },
                }
            },
        }
    }

    /// Reads property `property_name` of type `vertex_type` on one vertex.
    pub fn property_value(&self, vertex: &Option<Vertex>, vertex_type: &str, property_name: &str) -> (r: PropertyValue)
        requires
            self.value_of(*vertex, vertex_type@, property_name@) is Ok,
        ensures
            self.value_of(*vertex, vertex_type@, property_name@) == Ok::<ValueModel, ResolveError>(r@),
    {
        proof {
            lemma_type_names_differ();
        }
        if same_text(property_name, "__typename") {
            typename_value(vertex)
        } else if same_text(vertex_type, "DecodedInstruction") {
            self.resolve_decoded_instruction_property(vertex, property_name)
        } else if same_text(vertex_type, "SourceLocation") {
            self.resolve_source_location_property(vertex, property_name)
        } else if same_text(vertex_type, "BasicBlock") {
            self.resolve_basic_block_property(vertex, property_name)
        } else {
            self.resolve_function_property(vertex, property_name)
        }
    }

    /// Reads property `property_name` of type `BasicBlock`. Nothing builds
    /// basic blocks yet, so only an empty slot or `__typename` can be read.
    pub fn resolve_basic_block_property(&self, vertex: &Option<Vertex>, property_name: &str) -> (r: PropertyValue)
        requires
            self.value_of(*vertex, "BasicBlock"@, property_name@) is Ok,
        ensures
            self.value_of(*vertex, "BasicBlock"@, property_name@) == Ok::<ValueModel, ResolveError>(r@),
    {
        proof {
            lemma_type_names_differ();
        }
        if same_text(property_name, "__typename") {
            return typename_value(vertex);
        }
        match vertex {
            None => PropertyValue::Null,
            Some(_) => {
                assert(false);
                PropertyValue::Null
            },
        }
    }

    /// Reads property `property_name` of type `Function`. Nothing builds
    /// functions yet, so only an empty slot or `__typename` can be read.
    pub fn resolve_function_property(&self, vertex: &Option<Vertex>, property_name: &str) -> (r: PropertyValue)
        requires
            self.value_of(*vertex, "Function"@, property_name@) is Ok,
        ensures
            self.value_of(*vertex, "Function"@, property_name@) == Ok::<ValueModel, ResolveError>(r@),
    {
        proof {
            lemma_type_names_differ();
        }
        if same_text(property_name, "__typename") {
            return typename_value(vertex);
        }
        match vertex {
            None => PropertyValue::Null,
            Some(_) => {
                assert(false);
                PropertyValue::Null
            },
        }
    }

    /// Reads property `property_name` of an instruction vertex.
    pub fn resolve_decoded_instruction_property(&self, vertex: &Option<Vertex>, property_name: &str) -> (r:
        PropertyValue)
        requires
            self.value_of(*vertex, "DecodedInstruction"@, property_name@) is Ok,
        ensures
            self.value_of(*vertex, "DecodedInstruction"@, property_name@) == Ok::<ValueModel, ResolveError>(r@),
    {
        proof {
            lemma_type_names_differ();
        }
        if same_text(property_name, "__typename") {
            return typename_value(vertex);
        }
        match vertex {
            None => PropertyValue::Null,
            Some(Vertex::DecodedInstruction(k)) => {
                let text = self.text_section();
                let ins = &text[*k];
                assert(ins@ == self.text()[*k as int]);
                if same_text(property_name, "address") {
                    PropertyValue::Uint64(ins.address)
                } else if same_text(property_name, "length") {
                    PropertyValue::Uint64(ins.length as u64)
                } else if same_text(property_name, "name") {
                    PropertyValue::String(ins.name.clone())
                } else {
                    PropertyValue::List(copy_strings(&ins.operands))
                }
            },
            Some(_) => {
                assert(false);
                PropertyValue::Null
            },
        }
    }

    /// Reads property `property_name` of a source-location vertex.
    pub fn resolve_source_location_property(&self, vertex: &Option<Vertex>, property_name: &str) -> (r:
        PropertyValue)
        requires
            self.value_of(*vertex, "SourceLocation"@, property_name@) is Ok,
        ensures
            self.value_of(*vertex, "SourceLocation"@, property_name@) == Ok::<ValueModel, ResolveError>(r@),
    {
        proof {
            lemma_type_names_differ();
        }
        if same_text(property_name, "__typename") {
            return typename_value(vertex);
        }
        match vertex {
            None => PropertyValue::Null,
            Some(Vertex::SourceLocation(e, j)) => {
                let entries = self.debug_info().entries();
                assert(entries@[*e as int]@ == self.lines()[*e as int]);
                let loc = &entries[*e].locations[*j];
                assert(loc@ == self.lines()[*e as int].1[*j as int]);
                if same_text(property_name, "column") {
                    PropertyValue::Uint64(loc.column)
                } else if same_text(property_name, "file") {
                    PropertyValue::String(loc.file.clone())
                } else {
                    PropertyValue::Uint64(loc.line)
                }
            },
            Some(_) => {
                assert(false);
                PropertyValue::Null
            },
        }
    }

    /// Whether `out` is what property resolution owes for `inputs`: one
    /// output per input, in the same order, each with its input's context and
    /// the value read from its input's vertex.
    pub open spec fn resolves_to<C>(
        &self,
        inputs: Seq<(C, Option<Vertex>)>,
        ty: Seq<char>,
        prop: Seq<char>,
        out: Seq<(C, PropertyValue)>,
    ) -> bool {
        &&& out.len() == inputs.len()
        &&& forall|i: int|
            0 <= i < inputs.len() ==> (#[trigger] out[i]).0 == inputs[i].0 && self.value_of(inputs[i].1, ty, prop)
                == Ok::<ValueModel, ResolveError>(out[i].1@)
    }

    /// Reads property `property_name` of type `vertex_type` for each
    /// context, keeping the contexts in their order.
    pub fn resolve_property<C>(
        &self,
        contexts: Vec<(C, Option<Vertex>)>,
        vertex_type: &str,
        property_name: &str,
    ) -> (r: Vec<(C, PropertyValue)>)
        requires
            check_property(vertex_type@, property_name@) is None,
            forall|i: int|
                0 <= i < contexts@.len() ==> (#[trigger] self.value_of(contexts@[i].1, vertex_type@, property_name@)) is Ok,
        ensures
            self.resolves_to(contexts@, vertex_type@, property_name@, r@),
    {
        let ghost inputs = contexts@;
        let n = contexts.len();
        let mut rest = contexts;
        let mut out: Vec<(C, PropertyValue)> = Vec::new();
        let mut i: usize = 0;
        while rest.len() > 0
            invariant
                inputs.len() == n,
                inputs.len() == i + rest@.len(),
                rest@ == inputs.subrange(i as int, inputs.len() as int),
                forall|k: int|
                    0 <= k < inputs.len() ==> (#[trigger] self.value_of(inputs[k].1, vertex_type@, property_name@)) is Ok,
                out@.len() == i,
                forall|k: int|
                    0 <= k < i ==> (#[trigger] out@[k]).0 == inputs[k].0 && self.value_of(
                        inputs[k].1,
                        vertex_type@,
                        property_name@,
                    ) == Ok::<ValueModel, ResolveError>(out@[k].1@),
            decreases rest.len(),
        {
            let (ctx, vertex) = rest.remove(0);
            assert(inputs[i as int] == (ctx, vertex));
            let v = self.property_value(&vertex, vertex_type, property_name);
            out.push((ctx, v));
            i += 1;
            assert(rest@ =~= inputs.subrange(i as int, inputs.len() as int));
        }
        out
    }

    /// Tells for each context whether its vertex is of type `target`; a
    /// context with no vertex is of no type.
    pub fn resolve_coercion<C>(&self, contexts: Vec<(C, Option<Vertex>)>, target: &str) -> (r: Vec<(C, bool)>)
        requires
            is_type_name(target@),
        ensures
            r@.len() == contexts@.len(),
            forall|i: int|
                0 <= i < contexts@.len() ==> (#[trigger] r@[i]).0 == contexts@[i].0 && r@[i].1 == (
                contexts@[i].1 matches Some(v) && kind_name(v) == target@),
    {
        let ghost inputs = contexts@;
        let n = contexts.len();
        let mut rest = contexts;
        let mut out: Vec<(C, bool)> = Vec::new();
        let mut i: usize = 0;
        while rest.len() > 0
            invariant
                inputs.len() == n,
                inputs.len() == i + rest@.len(),
                rest@ == inputs.subrange(i as int, inputs.len() as int),
                out@.len() == i,
                forall|k: int|
                    0 <= k < i ==> (#[trigger] out@[k]).0 == inputs[k].0 && out@[k].1 == (inputs[k].1 matches Some(
                        v,
                    ) && kind_name(v) == target@),
            decreases rest.len(),
        {
            let (ctx, vertex) = rest.remove(0);
            assert(inputs[i as int] == (ctx, vertex));
            let fits = match &vertex {
                Some(v) => same_text(v.typename(), target),
                None => false,
            };
            out.push((ctx, fits));
            i += 1;
            assert(rest@ =~= inputs.subrange(i as int, inputs.len() as int));
        }
        out
    }

    /// Follows edge `edge_name` of type `vertex_type` from each context. The
    /// edges of basic blocks and functions are not backed by data yet, so
    /// this always fails, and says so.
    pub fn resolve_neighbors<C>(
        &self,
        contexts: Vec<(C, Option<Vertex>)>,
        vertex_type: &str,
        edge_name: &str,
    ) -> (r: Result<Vec<(C, Vec<Vertex>)>, ResolveError>)
        requires
            edge_error(vertex_type@, edge_name@) == ResolveError::UnsupportedEdge,
        ensures
            r == Err::<Vec<(C, Vec<Vertex>)>, ResolveError>(ResolveError::UnsupportedEdge),
    {
        if same_text(vertex_type, "BasicBlock") {
            Err(resolve_basic_block_edge(edge_name))
        } else {
            Err(resolve_function_edge(edge_name))
        }
    }
}

/// Whether `target` names a type of the graph.
pub fn known_type(target: &str) -> (r: bool)
    ensures
        r == is_type_name(target@),
{
    same_text(target, "BasicBlock") || same_text(target, "DecodedInstruction") || same_text(target, "Function")
        || same_text(target, "SourceLocation")
}

/// Why following an edge fails: the edges that the schema gives basic blocks
/// and functions are not backed yet, and the other types have none.
pub open spec fn edge_error(ty: Seq<char>, edge: Seq<char>) -> ResolveError {
    if ty == "BasicBlock"@ {
        if edge == "children"@ || edge == "instructions"@ {
            ResolveError::UnsupportedEdge
        } else {
            ResolveError::UnknownEdge
        }
    } else if ty == "Function"@ {
        if edge == "basic_blocks"@ || edge == "instructions"@ {
            ResolveError::UnsupportedEdge
        } else {
            ResolveError::UnknownEdge
        }
    } else if ty == "DecodedInstruction"@ || ty == "SourceLocation"@ {
        ResolveError::UnknownEdge
    } else {
        ResolveError::UnknownType
    }
}

/// Why following edge `edge_name` of type `vertex_type` fails.
pub fn check_edge(vertex_type: &str, edge_name: &str) -> (r: ResolveError)
    ensures
        r == edge_error(vertex_type@, edge_name@),
{
    if same_text(vertex_type, "BasicBlock") {
        if same_text(edge_name, "children") || same_text(edge_name, "instructions") {
            ResolveError::UnsupportedEdge
        } else {
            ResolveError::UnknownEdge
        }
    } else if same_text(vertex_type, "Function") {
        if same_text(edge_name, "basic_blocks") || same_text(edge_name, "instructions") {
            ResolveError::UnsupportedEdge
        } else {
            ResolveError::UnknownEdge
        }
    } else if same_text(vertex_type, "DecodedInstruction") || same_text(vertex_type, "SourceLocation") {
        ResolveError::UnknownEdge
    } else {
        ResolveError::UnknownType
    }
}

/// The edges of a basic block: named in the schema, not backed yet.
pub fn resolve_basic_block_edge(edge_name: &str) -> (r: ResolveError)
    requires
        edge_name@ == "children"@ || edge_name@ == "instructions"@,
    ensures
        r == ResolveError::UnsupportedEdge,
{
    ResolveError::UnsupportedEdge
}

/// The edges of a function: named in the schema, not backed yet.
pub fn resolve_function_edge(edge_name: &str) -> (r: ResolveError)
    requires
        edge_name@ == "basic_blocks"@ || edge_name@ == "instructions"@,
    ensures
        r == ResolveError::UnsupportedEdge,
{
    ResolveError::UnsupportedEdge
}

/// Property resolution keeps the pairing with the engine's contexts: for N
/// inputs it gives exactly N outputs, the i-th carrying the i-th context, and
/// an output's value is null exactly where its input had no vertex.
pub proof fn lemma_property_order<C>(
    a: &Adapter,
    inputs: Seq<(C, Option<Vertex>)>,
    ty: Seq<char>,
    prop: Seq<char>,
    out: Seq<(C, PropertyValue)>,
)
    requires
        a.resolves_to(inputs, ty, prop, out),
    ensures
        out.len() == inputs.len(),
        forall|i: int|
            0 <= i < inputs.len() ==> (#[trigger] out[i]).0 == inputs[i].0 && (out[i].1@ == ValueModel::Null
                <==> inputs[i].1 is None),
{
    lemma_type_names_differ();
    assert forall|i: int| 0 <= i < inputs.len() implies (#[trigger] out[i]).0 == inputs[i].0 && (out[i].1@
        == ValueModel::Null <==> inputs[i].1 is None) by {
        assert(a.value_of(inputs[i].1, ty, prop) == Ok::<ValueModel, ResolveError>(out[i].1@));
    }
}

/// The positions `(entry, index)` of every recorded location, by address
/// and then in the order recorded.
pub open spec fn all_positions(t: Seq<(u64, Seq<LocationModel>)>) -> Seq<(int, int)>
    decreases t.len(),
{
    if t.len() == 0 {
        Seq::empty()
    } else {
        all_positions(t.drop_last()) + Seq::new(t.last().1.len(), |j: int| (t.len() - 1, j))
    }
}

/// The positions of the locations recorded at address `a`.
pub open spec fn address_positions(t: Seq<(u64, Seq<LocationModel>)>, a: u64) -> Seq<(int, int)> {
    if has_address(t, a) {
        let e = choose|e: int| 0 <= e < t.len() && (#[trigger] t[e]).0 == a;
        Seq::new(t[e].1.len(), |j: int| (e, j))
    } else {
        Seq::empty()
    }
}

pub open spec fn location_vertices(p: Seq<(int, int)>) -> Seq<Vertex> {
    p.map_values(|q: (int, int)| Vertex::SourceLocation(q.0 as usize, q.1 as usize))
}

pub open spec fn instruction_vertices(k: Seq<int>) -> Seq<Vertex> {
    k.map_values(|k: int| Vertex::DecodedInstruction(k as usize))
}

/// Every recorded location.
pub fn debug_info(adapter: &Adapter) -> (r: Vec<Vertex>)
    ensures
        r@ == location_vertices(all_positions(adapter.lines())),
{
    let ghost t = adapter.lines();
    let entries = adapter.debug_info().entries();
    let mut out: Vec<Vertex> = Vec::new();
    let mut i: usize = 0;
    while i < entries.len()
        invariant
            entries@.map_values(|e: LineEntry| e@) == t,
            0 <= i <= t.len(),
            out@ == location_vertices(all_positions(t.take(i as int))),
        decreases entries.len() - i,
    {
        let n = entries[i].locations.len();
        assert(t[i as int] == entries@[i as int]@);
        let ghost before = out@;
        let mut j: usize = 0;
        while j < n
            invariant
                0 <= j <= n,
                n == t[i as int].1.len(),
                out@ == before + location_vertices(Seq::new(j as nat, |m: int| (i as int, m))),
            decreases n - j,
        {
            out.push(Vertex::SourceLocation(i, j));
            assert(location_vertices(Seq::new((j + 1) as nat, |m: int| (i as int, m))) =~= location_vertices(
                Seq::new(j as nat, |m: int| (i as int, m)),
            ).push(Vertex::SourceLocation(i, j)));
            j += 1;
        }
        assert(t.take(i + 1).drop_last() =~= t.take(i as int));
        assert(t.take(i + 1).last() == t[i as int]);
        assert(Seq::new(n as nat, |m: int| (i as int, m)) =~= Seq::new(
            t.take(i + 1).last().1.len(),
            |m: int| (t.take(i + 1).len() - 1, m),
        ));
        assert(out@ =~= location_vertices(all_positions(t.take(i + 1))));
        i += 1;
    }
    assert(t.take(i as int) =~= t);
    out
}

/// Every decoded instruction.
pub fn text_section(adapter: &Adapter) -> (r: Vec<Vertex>)
    ensures
        r@ == Seq::new(adapter.text().len(), |k: int| Vertex::DecodedInstruction(k as usize)),
{
    let n = adapter.text_section().len();
    let mut out: Vec<Vertex> = Vec::new();
    let mut k: usize = 0;
    while k < n
        invariant
            n == adapter.text().len(),
            0 <= k <= n,
            out@ == Seq::new(k as nat, |m: int| Vertex::DecodedInstruction(m as usize)),
        decreases n - k,
    {
        out.push(Vertex::DecodedInstruction(k));
        k += 1;
        assert(out@ =~= Seq::new(k as nat, |m: int| Vertex::DecodedInstruction(m as usize)));
    }
    out
}

/// The instructions that cover an address with a location in `file`.
pub fn get_file_instructions(adapter: &Adapter, file: &str) -> (r: Vec<Vertex>)
    ensures
        r@ == instruction_vertices(file_instruction_indices(adapter.lines(), adapter.text(), file@)),
{
    let indices = adapter.file_instruction_indices(file);
    let ghost want = instruction_vertices(file_instruction_indices(adapter.lines(), adapter.text(), file@));
    let mut out: Vec<Vertex> = Vec::new();
    let mut m: usize = 0;
    while m < indices.len()
        invariant
            instruction_vertices(indices_view(indices@)) == want,
            0 <= m <= indices@.len(),
            out@ == want.take(m as int),
        decreases indices.len() - m,
    {
        assert(want[m as int] == Vertex::DecodedInstruction(indices@[m as int]));
        out.push(Vertex::DecodedInstruction(indices[m]));
        m += 1;
        assert(out@ =~= want.take(m as int));
    }
    assert(want.take(m as int) =~= want);
    out
}

/// The locations in `file`.
pub fn get_file_locations(adapter: &Adapter, file: &str) -> (r: Vec<Vertex>)
    ensures
        r@ == location_vertices(file_positions(adapter.lines(), file@)),
{
    let positions = adapter.file_location_positions(file);
    let ghost want = location_vertices(file_positions(adapter.lines(), file@));
    let mut out: Vec<Vertex> = Vec::new();
    let mut m: usize = 0;
    while m < positions.len()
        invariant
            location_vertices(pairs_view(positions@)) == want,
            0 <= m <= positions@.len(),
            out@ == want.take(m as int),
        decreases positions.len() - m,
    {
        let (e, j) = positions[m];
        assert(want[m as int] == Vertex::SourceLocation(e, j));
        out.push(Vertex::SourceLocation(e, j));
        m += 1;
        assert(out@ =~= want.take(m as int));
    }
    assert(want.take(m as int) =~= want);
    out
}

/// The instruction whose bytes hold `address`, if any.
pub fn get_instruction(adapter: &Adapter, address: i64) -> (r: Vec<Vertex>)
    ensures
        r@ == match covering_index(adapter.text(), address as u64) {
            Some(k) => seq![Vertex::DecodedInstruction(k as usize)],
            None => Seq::<Vertex>::empty(),
        },
{
    let mut out: Vec<Vertex> = Vec::new();
    match adapter.instruction_index(address as u64) {
        Some(k) => {
            out.push(Vertex::DecodedInstruction(k));
            assert(out@ =~= seq![Vertex::DecodedInstruction(k)]);
        },
        None => {},
    }
    out
}

/// The locations recorded at `address`.
pub fn get_location(adapter: &Adapter, address: i64) -> (r: Vec<Vertex>)
    ensures
        r@ == location_vertices(address_positions(adapter.lines(), address as u64)),
{
    let ghost t = adapter.lines();
    let a = address as u64;
    let table = adapter.debug_info();
    let mut out: Vec<Vertex> = Vec::new();
    match table.find_entry(a) {
        Some(e) => {
            let entries = table.entries();
            assert(t[e as int] == entries@[e as int]@);
            let n = entries[e].locations.len();
            let ghost c = choose|c: int| 0 <= c < t.len() && (#[trigger] t[c]).0 == a;
            assert(c == e);
            let mut j: usize = 0;
            while j < n
                invariant
                    0 <= j <= n,
                    out@ == location_vertices(Seq::new(j as nat, |m: int| (e as int, m))),
                decreases n - j,
            {
                out.push(Vertex::SourceLocation(e, j));
                j += 1;
                assert(out@ =~= location_vertices(Seq::new(j as nat, |m: int| (e as int, m))));
            }
        },
        None => {
            assert(out@ =~= location_vertices(address_positions(t, a)));
        },
    }
    out
}

pub open spec fn text_view(s: Option<&str>) -> Option<Seq<char>> {
    match s {
        Some(x) => Some(x@),
        None => None,
    }
}

impl Adapter {
    /// The vertices that entry point `edge` starts from, given its
    /// parameters: a file path for the file queries, an address for the
    /// address queries.
    pub open spec fn starting_vertices(&self, edge: Seq<char>, file: Option<Seq<char>>, address: Option<i64>) -> Result<
        Seq<Vertex>,
        ResolveError,
    > {
        if edge == "debug_info"@ {
            Ok(location_vertices(all_positions(self.lines())))
        } else if edge == "text_section"@ {
            Ok(Seq::new(self.text().len(), |k: int| Vertex::DecodedInstruction(k as usize)))
        } else if edge == "getFileInstructions"@ {
            match file {
                Some(f) => Ok(instruction_vertices(file_instruction_indices(self.lines(), self.text(), f))),
                None => Err(ResolveError::MissingParameter),
            }
        } else if edge == "getFileLocations"@ {
            match file {
                Some(f) => Ok(location_vertices(file_positions(self.lines(), f))),
                None => Err(ResolveError::MissingParameter),
            }
        } else if edge == "getInstruction"@ {
            match address {
                Some(a) => Ok(
                    match covering_index(self.text(), a as u64) {
                        Some(k) => seq![Vertex::DecodedInstruction(k as usize)],
                        None => Seq::<Vertex>::empty(),
                    },
                ),
                None => Err(ResolveError::MissingParameter),
            }
        } else if edge == "getLocation"@ {
            match address {
                Some(a) => Ok(location_vertices(address_positions(self.lines(), a as u64))),
                None => Err(ResolveError::MissingParameter),
            }
        } else {
            Err(ResolveError::UnknownEntryPoint)
        }
    }

    /// The vertices that entry point `edge_name` starts from.
    pub fn resolve_starting_vertices(&self, edge_name: &str, file: Option<&str>, address: Option<i64>) -> (r: Vec<
        Vertex,
    >)
        requires
            starting_error(edge_name@, file is Some, address is Some) is None,
        ensures
            self.starting_vertices(edge_name@, text_view(file), address) == Ok::<Seq<Vertex>, ResolveError>(r@),
    {
        if same_text(edge_name, "debug_info") {
            debug_info(self)
        } else if same_text(edge_name, "text_section") {
            text_section(self)
        } else if same_text(edge_name, "getFileInstructions") {
            get_file_instructions(self, file.unwrap())
        } else if same_text(edge_name, "getFileLocations") {
            get_file_locations(self, file.unwrap())
        } else if same_text(edge_name, "getInstruction") {
            get_instruction(self, address.unwrap())
        } else {
            get_location(self, address.unwrap())
        }
    }
}

/// Why entry point `edge` cannot be resolved with the parameters given;
/// none when it can.
pub open spec fn starting_error(edge: Seq<char>, has_file: bool, has_address: bool) -> Option<ResolveError> {
    if edge == "debug_info"@ || edge == "text_section"@ {
        None
    } else if edge == "getFileInstructions"@ || edge == "getFileLocations"@ {
        if has_file {
            None
        } else {
            Some(ResolveError::MissingParameter)
        }
    } else if edge == "getInstruction"@ || edge == "getLocation"@ {
        if has_address {
            None
        } else {
            Some(ResolveError::MissingParameter)
        }
    } else {
        Some(ResolveError::UnknownEntryPoint)
    }
}

/// Why entry point `edge_name` cannot be resolved with the parameters given.
pub fn check_starting_edge(edge_name: &str, has_file: bool, has_address: bool) -> (r: Option<ResolveError>)
    ensures
        r == starting_error(edge_name@, has_file, has_address),
{
    if same_text(edge_name, "debug_info") || same_text(edge_name, "text_section") {
        None
    } else if same_text(edge_name, "getFileInstructions") || same_text(edge_name, "getFileLocations") {
        if has_file {
            None
        } else {
            Some(ResolveError::MissingParameter)
        }
    } else if same_text(edge_name, "getInstruction") || same_text(edge_name, "getLocation") {
        if has_address {
            None
        } else {
            Some(ResolveError::MissingParameter)
        }
    } else {
        Some(ResolveError::UnknownEntryPoint)
    }
}

} // verus!
