use vstd::prelude::*;

verus! {

/// The mathematical model of a preference value: floats are kept as their
/// IEEE-754 bit pattern.
pub enum PrefVal {
    Bool(bool),
    Int(i64),
    Float(u64),
    Str(Seq<char>),
    Array(Seq<PrefVal>),
}

/// A preference value as it is stored and handed out.
#[derive(Debug, PartialEq)]
pub enum PrefValue {
    Bool(bool),
    Int(i64),
    /// A double, held as its IEEE-754 bit pattern.
    Float(u64),
    Str(String),
    Array(Vec<PrefValue>),
}

impl View for PrefValue {
    type V = PrefVal;

    open spec fn view(&self) -> PrefVal
        decreases self,
    {
        match self {
            PrefValue::Bool(b) => PrefVal::Bool(*b),
            PrefValue::Int(i) => PrefVal::Int(*i),
            PrefValue::Float(f) => PrefVal::Float(*f),
            PrefValue::Str(s) => PrefVal::Str(s@),
            PrefValue::Array(a) => PrefVal::Array(view_items(a@)),
        }
    }
}

/// The models of a sequence of values, item by item.
pub open spec fn view_items(s: Seq<PrefValue>) -> Seq<PrefVal>
    decreases s,
{
    if s.len() == 0 {
        Seq::empty()
    } else {
        view_items(s.drop_last()).push(s.last()@)
    }
}

pub proof fn lemma_view_items(s: Seq<PrefValue>)
    ensures
        view_items(s).len() == s.len(),
        forall|i: int| 0 <= i < s.len() ==> #[trigger] view_items(s)[i] == s[i]@,
    decreases s.len(),
{
    if s.len() == 0 {
        assert(view_items(s) == Seq::<PrefVal>::empty());
    } else {
        lemma_view_items(s.drop_last());
        assert(view_items(s) == view_items(s.drop_last()).push(s.last()@));
    }
}


/// The model of a node of a generic parsed document.
pub enum JsonVal {
    Null,
    Bool(bool),
    Int(i64),
    /// A non-negative integer above the range of `i64`.
    Uint(u64),
    Float(u64),
    Str(Seq<char>),
    Array(Seq<JsonVal>),
    Object(Seq<(Seq<char>, JsonVal)>),
}

/// A node of a generic parsed document: what an interchange-format parser
/// hands back, with doubles kept as their IEEE-754 bit pattern.
#[derive(Debug, PartialEq)]
pub enum JsonNode {
    Null,
    Bool(bool),
    Int(i64),
    /// A non-negative integer above the range of `i64`.
    Uint(u64),
    /// A double, held as its IEEE-754 bit pattern.
    Float(u64),
    Str(String),
    Array(Vec<JsonNode>),
    /// Named members, in document order.
    Object(Vec<(String, JsonNode)>),
}

impl View for JsonNode {
    type V = JsonVal;

    open spec fn view(&self) -> JsonVal
        decreases self,
    {
        match self {
            JsonNode::Null => JsonVal::Null,
            JsonNode::Bool(b) => JsonVal::Bool(*b),
            JsonNode::Int(i) => JsonVal::Int(*i),
            JsonNode::Uint(u) => JsonVal::Uint(*u),
            JsonNode::Float(f) => JsonVal::Float(*f),
            JsonNode::Str(s) => JsonVal::Str(s@),
            JsonNode::Array(a) => JsonVal::Array(view_nodes(a@)),
            JsonNode::Object(m) => JsonVal::Object(view_members(m@)),
        }
    }
}

/// The models of a sequence of nodes, item by item.
pub open spec fn view_nodes(s: Seq<JsonNode>) -> Seq<JsonVal>
    decreases s,
{
    if s.len() == 0 {
        Seq::empty()
    } else {
        view_nodes(s.drop_last()).push(s.last()@)
    }
}

/// The models of a sequence of named members, item by item.
pub open spec fn view_members(s: Seq<(String, JsonNode)>) -> Seq<(Seq<char>, JsonVal)>
    decreases s,
{
    if s.len() == 0 {
        Seq::empty()
    } else {
        view_members(s.drop_last()).push((s.last().0@, s.last().1@))
    }
}

pub proof fn lemma_view_nodes(s: Seq<JsonNode>)
    ensures
        view_nodes(s).len() == s.len(),
        forall|i: int| 0 <= i < s.len() ==> #[trigger] view_nodes(s)[i] == s[i]@,
    decreases s.len(),
{
    if s.len() == 0 {
        assert(view_nodes(s) == Seq::<JsonVal>::empty());
    } else {
        lemma_view_nodes(s.drop_last());
        assert(view_nodes(s) == view_nodes(s.drop_last()).push(s.last()@));
    }
}

pub proof fn lemma_view_members(s: Seq<(String, JsonNode)>)
    ensures
        view_members(s).len() == s.len(),
        forall|i: int|
            0 <= i < s.len() ==> #[trigger] view_members(s)[i] == (s[i].0@, s[i].1@),
    decreases s.len(),
{
    if s.len() == 0 {
        assert(view_members(s) == Seq::<(Seq<char>, JsonVal)>::empty());
    } else {
        lemma_view_members(s.drop_last());
        assert(view_members(s) == view_members(s.drop_last()).push(
            (s.last().0@, s.last().1@),
        ));
    }
}

/// A value that is not an array.
pub open spec fn is_scalar(v: PrefVal) -> bool {
    !(v is Array)
}

/// A scalar value, or an array whose items are all scalars.
pub open spec fn is_flat(v: PrefVal) -> bool {
    match v {
        PrefVal::Array(items) => forall|i: int| 0 <= i < items.len() ==> is_scalar(#[trigger] items[i]),
        _ => true,
    }
}

/// The scalar value that a node stands for, if it stands for one.
pub open spec fn scalar_of_node(n: JsonVal) -> Option<PrefVal> {
    match n {
        JsonVal::Bool(b) => Some(PrefVal::Bool(b)),
        JsonVal::Int(i) => Some(PrefVal::Int(i)),
        JsonVal::Float(f) => Some(PrefVal::Float(f)),
        JsonVal::Str(s) => Some(PrefVal::Str(s)),
        _ => None,
    }
}

/// The value that a node stands for: a scalar, or an array only when every
/// item is a scalar node.
pub open spec fn value_of_node(n: JsonVal) -> Option<PrefVal> {
    match n {
        JsonVal::Array(items) => if forall|i: int|
            0 <= i < items.len() ==> (#[trigger] scalar_of_node(items[i])) is Some {
            Some(PrefVal::Array(items.map_values(|x: JsonVal| scalar_of_node(x)->Some_0)))
        } else {
            None
        },
        _ => scalar_of_node(n),
    }
}

/// The node that stands for a scalar value.
pub open spec fn node_of_scalar(v: PrefVal) -> JsonVal {
    match v {
        PrefVal::Bool(b) => JsonVal::Bool(b),
        PrefVal::Int(i) => JsonVal::Int(i),
        PrefVal::Float(f) => JsonVal::Float(f),
        PrefVal::Str(s) => JsonVal::Str(s),
        PrefVal::Array(_) => JsonVal::Null,
    }
}

/// The node that stands for a value; items of an array that are themselves
/// arrays have no node and become `Null`.
pub open spec fn node_of_value(v: PrefVal) -> JsonVal {
    match v {
        PrefVal::Array(items) => JsonVal::Array(items.map_values(|x: PrefVal| node_of_scalar(x))),
        _ => node_of_scalar(v),
    }
}

/// Converting a flat value to a generic node and back gives the value again.
pub proof fn lemma_generic_round_trip(v: PrefVal)
    requires
        is_flat(v),
    ensures
        value_of_node(node_of_value(v)) == Some(v),
{
    if let PrefVal::Array(items) = v {
        let nodes = items.map_values(|x: PrefVal| node_of_scalar(x));
        assert forall|i: int| 0 <= i < nodes.len() implies (#[trigger] scalar_of_node(nodes[i])) is Some by {
            assert(is_scalar(items[i]));
        }
        let back = nodes.map_values(|x: JsonVal| scalar_of_node(x)->Some_0);
        assert forall|i: int| 0 <= i < items.len() implies back[i] == items[i] by {
            assert(is_scalar(items[i]));
        }
        assert(back =~= items);
    }
}

impl PrefValue {
    pub fn duplicate(&self) -> (r: PrefValue)
        ensures
            r@ == self@,
        decreases self,
    {
        match self {
            PrefValue::Bool(b) => PrefValue::Bool(*b),
            PrefValue::Int(i) => PrefValue::Int(*i),
            PrefValue::Float(f) => PrefValue::Float(*f),
            PrefValue::Str(s) => PrefValue::Str(s.clone()),
            PrefValue::Array(a) => {
                let mut out: Vec<PrefValue> = Vec::new();
                let mut i: usize = 0;
                while i < a.len()
                    invariant
                        *self == PrefValue::Array(*a),
                        i <= a.len(),
                        out@.len() == i,
                        forall|j: int| 0 <= j < i ==> out@[j]@ == a@[j]@,
                    decreases a.len() - i,
                {
                    proof {
                        broadcast use vstd::std_specs::vec::axiom_vec_index_decreases;
                        assert(decreases_to!(*self => self->Array_0));
                        assert(decreases_to!(self->Array_0 => self->Array_0[i as int]));
                    }
                    out.push(a[i].duplicate());
                    i = i + 1;
                }
                let r = PrefValue::Array(out);
                assert(r@ == self@) by {
                    lemma_view_items(out@);
                    lemma_view_items(a@);
                    assert(view_items(out@) =~= view_items(a@));
                }
                r
            }
        }
    }
}


impl PrefValue {
    /// The scalar value that a node stands for: booleans, integers in the
    /// range of `i64`, doubles and strings; `None` for any other node.
    pub fn from_json_value(n: &JsonNode) -> (r: Option<PrefValue>)
        ensures
            r is Some <==> scalar_of_node(n@) is Some,
            r is Some ==> r->Some_0@ == scalar_of_node(n@)->Some_0,
    {
        match n {
            JsonNode::Bool(b) => Some(PrefValue::Bool(*b)),
            JsonNode::Int(i) => Some(PrefValue::Int(*i)),
            JsonNode::Float(f) => Some(PrefValue::Float(*f)),
            JsonNode::Str(s) => Some(PrefValue::Str(s.clone())),
            _ => None,
        }
    }

    /// The value that a node stands for. An array converts only when every
    /// item is a scalar node: there are no partial arrays.
    pub fn from_generic(n: &JsonNode) -> (r: Option<PrefValue>)
        ensures
            r is Some <==> value_of_node(n@) is Some,
            r is Some ==> r->Some_0@ == value_of_node(n@)->Some_0,
    {
        match n {
            JsonNode::Array(items) => {
                let ghost nodes = view_nodes(items@);
                proof {
                    lemma_view_nodes(items@);
                }
                let mut out: Vec<PrefValue> = Vec::new();
                let mut i: usize = 0;
                while i < items.len()
                    invariant
                        n@ == JsonVal::Array(nodes),
                        nodes.len() == items@.len(),
                        forall|j: int| 0 <= j < items@.len() ==> nodes[j] == #[trigger] items@[j]@,
                        i <= items.len(),
                        out@.len() == i,
                        forall|j: int| 0 <= j < i ==> (#[trigger] scalar_of_node(nodes[j])) is Some,
                        forall|j: int|
                            0 <= j < i ==> (#[trigger] out@[j])@ == scalar_of_node(nodes[j])->Some_0,
                    decreases items.len() - i,
                {
                    match PrefValue::from_json_value(&items[i]) {
                        Some(v) => {
                            out.push(v);
                        },
                        None => {
                            assert(scalar_of_node(nodes[i as int]) is None);
                            return None;
                        },
                    }
                    i = i + 1;
                }
                let r = PrefValue::Array(out);
                proof {
                    lemma_view_items(out@);
                    assert(view_items(out@) =~= nodes.map_values(
                        |x: JsonVal| scalar_of_node(x)->Some_0,
                    ));
                }
                Some(r)
            },
            _ => PrefValue::from_json_value(n),
        }
    }

    /// The node that stands for this value. Items of an array that are
    /// themselves arrays have no node of their own and become `Null`.
    pub fn to_generic(&self) -> (r: JsonNode)
        ensures
            r@ == node_of_value(self@),
    {
        match self {
            PrefValue::Array(items) => {
                let ghost vals = view_items(items@);
                proof {
                    lemma_view_items(items@);
                }
                let mut out: Vec<JsonNode> = Vec::new();
                let mut i: usize = 0;
                while i < items.len()
                    invariant
                        vals.len() == items@.len(),
                        forall|j: int| 0 <= j < items@.len() ==> vals[j] == #[trigger] items@[j]@,
                        i <= items.len(),
                        out@.len() == i,
                        forall|j: int|
                            0 <= j < i ==> (#[trigger] out@[j])@ == node_of_scalar(vals[j]),
                    decreases items.len() - i,
                {
                    out.push(items[i].scalar_node());
                    i = i + 1;
                }
                proof {
                    lemma_view_nodes(out@);
                    assert(view_nodes(out@) =~= vals.map_values(|x: PrefVal| node_of_scalar(x)));
                }
                JsonNode::Array(out)
            },
            _ => self.scalar_node(),
        }
    }

    fn scalar_node(&self) -> (r: JsonNode)
        ensures
            r@ == node_of_scalar(self@),
    {
        match self {
            PrefValue::Bool(b) => JsonNode::Bool(*b),
            PrefValue::Int(i) => JsonNode::Int(*i),
            PrefValue::Float(f) => JsonNode::Float(*f),
            PrefValue::Str(s) => JsonNode::Str(s.clone()),
            PrefValue::Array(_) => JsonNode::Null,
        }
    }
}

impl Clone for PrefValue {
    fn clone(&self) -> Self {
        self.duplicate()
    }
}

impl From<bool> for PrefValue {
    fn from(b: bool) -> (r: PrefValue) {
        PrefValue::Bool(b)
    }
}

impl vstd::std_specs::convert::FromSpecImpl<bool> for PrefValue {
    open spec fn obeys_from_spec() -> bool {
        true
    }

    open spec fn from_spec(b: bool) -> PrefValue {
        PrefValue::Bool(b)
    }
}

impl From<i64> for PrefValue {
    fn from(i: i64) -> (r: PrefValue) {
        PrefValue::Int(i)
    }
}

impl vstd::std_specs::convert::FromSpecImpl<i64> for PrefValue {
    open spec fn obeys_from_spec() -> bool {
        true
    }

    open spec fn from_spec(i: i64) -> PrefValue {
        PrefValue::Int(i)
    }
}

impl From<String> for PrefValue {
    fn from(s: String) -> (r: PrefValue) {
        PrefValue::Str(s)
    }
}

impl vstd::std_specs::convert::FromSpecImpl<String> for PrefValue {
    open spec fn obeys_from_spec() -> bool {
        true
    }

    open spec fn from_spec(s: String) -> PrefValue {
        PrefValue::Str(s)
    }
}

} // verus!
