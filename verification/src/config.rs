//! Test-case configurations: an identity (id, optional subtask id), a typed
//! key/value parameter map, and the deterministic file-naming function.
use crate::text::dec_str;
use crate::text::u64_to_string;
use vstd::prelude::*;
use vstd::string::StrSliceExecFns;
use vstd::string::StringExecFns;

verus! {

/// A tagged parameter value. A float is carried as its IEEE-754 bit
/// pattern, so the map itself stays free of floating-point arithmetic;
/// callers that need the number convert at the boundary.
pub enum Value {
    Integer(i64),
    Float(u64),
    String(String),
    Bool(bool),
}

/// Spec-level image of a `Value`.
pub enum ValueView {
    Integer(i64),
    Float(u64),
    Text(Seq<char>),
    Bool(bool),
}

impl View for Value {
    type V = ValueView;

    open spec fn view(&self) -> ValueView {
        match self {
            Value::Integer(v) => ValueView::Integer(*v),
            Value::Float(v) => ValueView::Float(*v),
            Value::String(v) => ValueView::Text(v@),
            Value::Bool(v) => ValueView::Bool(*v),
        }
    }
}

/// The parameter map denoted by an association list: later entries for a
/// key shadow earlier ones.
pub open spec fn params_view(s: Seq<(String, Value)>) -> Map<Seq<char>, ValueView>
    decreases s.len(),
{
    if s.len() == 0 {
        Map::empty()
    } else {
        params_view(s.drop_last()).insert(s.last().0@, s.last().1@)
    }
}

/// One test-case configuration: identity plus parameters.
pub struct Config {
    id: u32,
    subtask_id: Option<u32>,
    values: Vec<(String, Value)>,
}

/// Spec-level image of a `Config`.
pub struct ConfigView {
    pub id: u32,
    pub subtask_id: Option<u32>,
    pub params: Map<Seq<char>, ValueView>,
}

impl View for Config {
    type V = ConfigView;

    closed spec fn view(&self) -> ConfigView {
        ConfigView { id: self.id, subtask_id: self.subtask_id, params: params_view(self.values@) }
    }
}

/// The configuration's file name for a given base name and extension:
/// `{base}{subtask}_{id}.{ext}` with a subtask id, `{base}{id}.{ext}`
/// without.
pub open spec fn spec_generate_name(c: ConfigView, base: Seq<char>, ext: Seq<char>) -> Seq<char> {
    match c.subtask_id {
        Some(st) => base + dec_str(st as nat) + seq!['_'] + dec_str(c.id as nat) + seq!['.'] + ext,
        None => base + dec_str(c.id as nat) + seq!['.'] + ext,
    }
}

/// A key that matches no entry is not in the denoted map.
proof fn lemma_params_view_no_match(s: Seq<(String, Value)>, k: Seq<char>)
    requires
        forall|j: int| 0 <= j < s.len() ==> (#[trigger] s[j].0)@ != k,
    ensures
        !params_view(s).dom().contains(k),
    decreases s.len(),
{
    if s.len() > 0 {
        lemma_params_view_no_match(s.drop_last(), k);
    }
}

/// The denoted map sends a key to the value of its last matching entry.
proof fn lemma_params_view_last_match(s: Seq<(String, Value)>, i: int, k: Seq<char>)
    requires
        0 <= i < s.len(),
        s[i].0@ == k,
        forall|j: int| i < j < s.len() ==> (#[trigger] s[j].0)@ != k,
    ensures
        params_view(s).dom().contains(k),
        params_view(s)[k] == s[i].1@,
    decreases s.len(),
{
    if i < s.len() - 1 {
        lemma_params_view_last_match(s.drop_last(), i, k);
    }
}

/// Character-wise string comparison.
fn str_eq(a: &str, b: &str) -> (r: bool)
    ensures
        r == (a@ == b@),
{
    let la = a.unicode_len();
    let lb = b.unicode_len();
    if la != lb {
        return false;
    }
    let mut i: usize = 0;
    while i < la
        invariant
            i <= la,
            la as nat == a@.len(),
            la as nat == b@.len(),
            forall|k: int| 0 <= k < i ==> a@[k] == b@[k],
        decreases la - i,
    {
        if a.get_char(i) != b.get_char(i) {
            return false;
        }
        i = i + 1;
    }
    proof {
        assert(a@ =~= b@);
    }
    true
}

/// A copy of a stored value, preserving its spec-level image.
fn clone_value(v: &Value) -> (r: Value)
    ensures
        r@ == v@,
{
    match v {
        Value::Integer(x) => Value::Integer(*x),
        Value::Float(x) => Value::Float(*x),
        Value::String(x) => Value::String(x.clone()),
        Value::Bool(x) => Value::Bool(*x),
    }
}

impl Config {
    /// A configuration with no subtask id and no parameters.
    pub fn new(id: u32) -> (r: Self)
        ensures
            r@.id == id,
            r@.subtask_id is None,
            r@.params == Map::<Seq<char>, ValueView>::empty(),
    {
        Self { id, subtask_id: None, values: Vec::new() }
    }

    /// A configuration under a subtask, with no parameters.
    pub fn with_subtask(subtask_id: u32, id: u32) -> (r: Self)
        ensures
            r@.id == id,
            r@.subtask_id == Some(subtask_id),
            r@.params == Map::<Seq<char>, ValueView>::empty(),
    {
        Self { id, subtask_id: Some(subtask_id), values: Vec::new() }
    }

    /// Binds `key` to `value`, shadowing any earlier binding, and passes
    /// the configuration on.
    pub fn insert(self, key: &str, value: Value) -> (r: Self)
        ensures
            r@.id == self@.id,
            r@.subtask_id == self@.subtask_id,
            r@.params == self@.params.insert(key@, value@),
    {
        let ghost old_values = self.values@;
        let ghost vv = value@;
        let mut s = self;
        s.values.push((key.to_owned(), value));
        proof {
            assert(s.values@.drop_last() =~= old_values);
            assert(s.values@.last().0@ == key@ && s.values@.last().1@ == vv);
        }
        s
    }

    /// The bound value for `key`, if any.
    pub fn try_get(&self, key: &str) -> (r: Option<Value>)
        ensures
            match r {
                Some(v) => self@.params.dom().contains(key@) && v@ == self@.params[key@],
                None => !self@.params.dom().contains(key@),
            },
    {
        let len = self.values.len();
        let mut i = len;
        while i > 0
            invariant
                i <= len,
                len == self.values@.len(),
                forall|j: int| i <= j < len ==> (#[trigger] self.values@[j].0)@ != key@,
            decreases i,
        {
            i = i - 1;
            if str_eq(self.values[i].0.as_str(), key) {
                proof {
                    lemma_params_view_last_match(self.values@, i as int, key@);
                }
                return Some(clone_value(&self.values[i].1));
            }
        }
        proof {
            lemma_params_view_no_match(self.values@, key@);
        }
        None
    }

    /// The bound value for `key`; the caller must know the key is bound
    /// (an unbound key is a programming error, not a runtime condition).
    pub fn get(&self, key: &str) -> (r: Value)
        requires
            self@.params.dom().contains(key@),
        ensures
            r@ == self@.params[key@],
    {
        match self.try_get(key) {
            Some(v) => v,
            None => {
                assert(false);
                Value::Bool(false)
            },
        }
    }

    /// The file name for this configuration, per `spec_generate_name`.
    pub fn generate_name(&self, name: &str, extension: &str) -> (r: String)
        ensures
            r@ == spec_generate_name(self@, name@, extension@),
    {
        proof {
            reveal_strlit("_");
            reveal_strlit(".");
        }
        let mut s = name.to_owned();
        match self.subtask_id {
            Some(st) => {
                let st_str = u64_to_string(st as u64);
                s.append(st_str.as_str());
                s.append("_");
            },
            None => {},
        }
        let id_str = u64_to_string(self.id as u64);
        s.append(id_str.as_str());
        s.append(".");
        s.append(extension);
        proof {
            assert(s@ =~= spec_generate_name(self@, name@, extension@));
        }
        s
    }

    /// The numeric id.
    pub fn id(&self) -> (r: u32)
        ensures
            r == self@.id,
    {
        self.id
    }

    /// The subtask id, if any.
    pub fn subtask_id(&self) -> (r: Option<u32>)
        ensures
            r == self@.subtask_id,
    {
        self.subtask_id
    }
}

impl Value {
    /// The integer payload; the value must carry that variant.
    pub fn unwrap_integer(self) -> (r: i64)
        requires
            self@ is Integer,
        ensures
            self@ == ValueView::Integer(r),
    {
        match self {
            Value::Integer(v) => v,
            _ => {
                assert(false);
                0
            },
        }
    }

    /// The float payload, as its IEEE-754 bit pattern; the value must
    /// carry that variant.
    pub fn unwrap_float(self) -> (r: u64)
        requires
            self@ is Float,
        ensures
            self@ == ValueView::Float(r),
    {
        match self {
            Value::Float(v) => v,
            _ => {
                assert(false);
                0
            },
        }
    }

    /// The string payload; the value must carry that variant.
    pub fn unwrap_string(self) -> (r: String)
        requires
            self@ is Text,
        ensures
            self@ == ValueView::Text(r@),
    {
        match self {
            Value::String(v) => v,
            _ => {
                assert(false);
                String::new()
            },
        }
    }

    /// The boolean payload; the value must carry that variant.
    pub fn unwrap_bool(self) -> (r: bool)
        requires
            self@ is Bool,
        ensures
            self@ == ValueView::Bool(r),
    {
        match self {
            Value::Bool(v) => v,
            _ => {
                assert(false);
                false
            },
        }
    }

    /// The integer payload, if the value carries that variant.
    pub fn as_integer(&self) -> (r: Option<i64>)
        ensures
            match r {
                Some(v) => self@ == ValueView::Integer(v),
                None => !(self@ is Integer),
            },
    {
        match self {
            Value::Integer(v) => Some(*v),
            _ => None,
        }
    }
}

impl From<i64> for Value {
    fn from(value: i64) -> (r: Self) {
        Value::Integer(value)
    }
}

impl vstd::std_specs::convert::FromSpecImpl<i64> for Value {
    open spec fn obeys_from_spec() -> bool {
        true
    }

    open spec fn from_spec(value: i64) -> Self {
        Value::Integer(value)
    }
}

impl From<bool> for Value {
    fn from(value: bool) -> (r: Self) {
        Value::Bool(value)
    }
}

impl vstd::std_specs::convert::FromSpecImpl<bool> for Value {
    open spec fn obeys_from_spec() -> bool {
        true
    }

    open spec fn from_spec(value: bool) -> Self {
        Value::Bool(value)
    }
}

impl From<String> for Value {
    fn from(value: String) -> (r: Self) {
        Value::String(value)
    }
}

impl vstd::std_specs::convert::FromSpecImpl<String> for Value {
    open spec fn obeys_from_spec() -> bool {
        true
    }

    open spec fn from_spec(value: String) -> Self {
        Value::String(value)
    }
}

impl Clone for Value {
    /// An equal value, as the spec-level image sees it.
    fn clone(&self) -> (r: Self)
        ensures
            r@ == self@,
    {
        clone_value(self)
    }
}

} // verus!
