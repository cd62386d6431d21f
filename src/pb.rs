//! Values, pairs, requests and responses.
use vstd::prelude::*;

verus! {

/// A stored value: at most one variant is populated; `Empty` means "no value".
/// A float is carried as its IEEE-754 bit pattern.
#[derive(Debug, PartialEq)]
pub enum Value {
    Empty,
    String(String),
    Integer(i64),
    Float(u64),
    Bool(bool),
    Binary(Vec<u8>),
}

/// The mathematical content of a `Value`.
pub enum ValueView {
    Empty,
    String(Seq<char>),
    Integer(i64),
    Float(u64),
    Bool(bool),
    Binary(Seq<u8>),
}

impl View for Value {
    type V = ValueView;

    open spec fn view(&self) -> ValueView {
        match self {
            Value::Empty => ValueView::Empty,
            Value::String(s) => ValueView::String(s@),
            Value::Integer(i) => ValueView::Integer(*i),
            Value::Float(f) => ValueView::Float(*f),
            Value::Bool(b) => ValueView::Bool(*b),
            Value::Binary(b) => ValueView::Binary(b@),
        }
    }
}

impl Clone for Value {
    fn clone(&self) -> (r: Self)
        ensures
            r@ == self@,
    {
        match self {
            Value::Empty => Value::Empty,
            Value::String(s) => Value::String(s.clone()),
            Value::Integer(i) => Value::Integer(*i),
            Value::Float(f) => Value::Float(*f),
            Value::Bool(b) => Value::Bool(*b),
            Value::Binary(b) => {
                let c = b.clone();
                assert(c@ =~= b@);
                Value::Binary(c)
            },
        }
    }
}

impl Default for Value {
    fn default() -> (r: Self)
        ensures
            r@ == ValueView::Empty,
    {
        Value::Empty
    }
}

impl From<&str> for Value {
    fn from(s: &str) -> (r: Self)
        ensures
            r@ == ValueView::String(s@),
    {
        Value::String(s.to_owned())
    }
}

/// No spec function gives the `String` that `to_owned` makes, so this conversion is
/// described by the `ensures` of `from` alone.
impl vstd::std_specs::convert::FromSpecImpl<&str> for Value {
    open spec fn obeys_from_spec() -> bool {
        false
    }

    open spec fn from_spec(s: &str) -> Value {
        Value::Empty
    }
}

impl From<String> for Value {
    fn from(s: String) -> (r: Self)
        ensures
            r@ == ValueView::String(s@),
    {
        Value::String(s)
    }
}

impl vstd::std_specs::convert::FromSpecImpl<String> for Value {
    open spec fn obeys_from_spec() -> bool {
        true
    }

    open spec fn from_spec(s: String) -> Value {
        Value::String(s)
    }
}

impl From<i64> for Value {
    fn from(i: i64) -> (r: Self)
        ensures
            r@ == ValueView::Integer(i),
    {
        Value::Integer(i)
    }
}

impl vstd::std_specs::convert::FromSpecImpl<i64> for Value {
    open spec fn obeys_from_spec() -> bool {
        true
    }

    open spec fn from_spec(i: i64) -> Value {
        Value::Integer(i)
    }
}

impl From<bool> for Value {
    fn from(b: bool) -> (r: Self)
        ensures
            r@ == ValueView::Bool(b),
    {
        Value::Bool(b)
    }
}

impl vstd::std_specs::convert::FromSpecImpl<bool> for Value {
    open spec fn obeys_from_spec() -> bool {
        true
    }

    open spec fn from_spec(b: bool) -> Value {
        Value::Bool(b)
    }
}

impl From<Vec<u8>> for Value {
    fn from(b: Vec<u8>) -> (r: Self)
        ensures
            r@ == ValueView::Binary(b@),
    {
        Value::Binary(b)
    }
}

impl vstd::std_specs::convert::FromSpecImpl<Vec<u8>> for Value {
    open spec fn obeys_from_spec() -> bool {
        true
    }

    open spec fn from_spec(b: Vec<u8>) -> Value {
        Value::Binary(b)
    }
}

/// A key together with its value.
#[derive(Debug, PartialEq)]
pub struct Kvpair {
    pub key: String,
    pub value: Value,
}

impl View for Kvpair {
    type V = (Seq<char>, ValueView);

    open spec fn view(&self) -> (Seq<char>, ValueView) {
        (self.key@, self.value@)
    }
}

impl Clone for Kvpair {
    fn clone(&self) -> (r: Self)
        ensures
            r@ == self@,
    {
        Kvpair { key: self.key.clone(), value: self.value.clone() }
    }
}

impl Kvpair {
    pub fn new(key: &str, value: Value) -> (r: Self)
        ensures
            r@ == (key@, value@),
    {
        Kvpair { key: key.to_owned(), value }
    }
}


/// Converts a list of string slices into owned strings, keeping their order.
pub fn to_strings(keys: Vec<&str>) -> (r: Vec<String>)
    ensures
        r@.len() == keys@.len(),
        forall|i: int| 0 <= i < keys@.len() ==> #[trigger] r@[i]@ == keys@[i]@,
{
    let mut r: Vec<String> = Vec::new();
    let mut i: usize = 0;
    while i < keys.len()
        invariant
            i <= keys@.len(),
            r@.len() == i,
            forall|j: int| 0 <= j < i ==> #[trigger] r@[j]@ == keys@[j]@,
        decreases keys@.len() - i,
    {
        r.push(keys[i].to_owned());
        i = i + 1;
    }
    r
}

/// The views of a list of strings.
pub open spec fn strings_view(v: Seq<String>) -> Seq<Seq<char>> {
    v.map_values(|s: String| s@)
}

/// The views of a list of values.
pub open spec fn values_view(v: Seq<Value>) -> Seq<ValueView> {
    v.map_values(|x: Value| x@)
}

/// The views of a list of pairs.
pub open spec fn pairs_view(v: Seq<Kvpair>) -> Seq<(Seq<char>, ValueView)> {
    v.map_values(|p: Kvpair| p@)
}

#[derive(Clone, Debug, PartialEq)]
pub struct Hget {
    pub table: String,
    pub key: String,
}

#[derive(Clone, Debug, PartialEq)]
pub struct Hgetall {
    pub table: String,
}

#[derive(Clone, Debug, PartialEq)]
pub struct Hset {
    pub table: String,
    pub pair: Option<Kvpair>,
}

#[derive(Clone, Debug, PartialEq)]
pub struct Hdel {
    pub table: String,
    pub key: String,
}

#[derive(Clone, Debug, PartialEq)]
pub struct Hexist {
    pub table: String,
    pub key: String,
}

#[derive(Clone, Debug, PartialEq)]
pub struct Hmget {
    pub table: String,
    pub keys: Vec<String>,
}

#[derive(Clone, Debug, PartialEq)]
pub struct Hmset {
    pub table: String,
    pub pairs: Vec<Kvpair>,
}

#[derive(Clone, Debug, PartialEq)]
pub struct Hmdel {
    pub table: String,
    pub keys: Vec<String>,
}

#[derive(Clone, Debug, PartialEq)]
pub struct Hmexist {
    pub table: String,
    pub keys: Vec<String>,
}

#[derive(Clone, Debug, PartialEq)]
pub struct Subscribe {
    pub topic: String,
}

#[derive(Clone, Debug, PartialEq)]
pub struct Unsubscribe {
    pub topic: String,
    pub id: u32,
}

#[derive(Clone, Debug, PartialEq)]
pub struct Publish {
    pub topic: String,
    pub data: Vec<Value>,
}

/// The payload of a request: exactly one kind of command.
#[derive(Clone, Debug, PartialEq)]
pub enum RequestData {
    Hget(Hget),
    Hgetall(Hgetall),
    Hset(Hset),
    Hdel(Hdel),
    Hexist(Hexist),
    Hmget(Hmget),
    Hmset(Hmset),
    Hmdel(Hmdel),
    Hmexist(Hmexist),
    Subscribe(Subscribe),
    Unsubscribe(Unsubscribe),
    Publish(Publish),
}

/// A request; `None` is an invalid request.
#[derive(Clone, Debug, PartialEq)]
pub struct CommandRequest {
    pub request_data: Option<RequestData>,
}

impl CommandRequest {
    pub fn new_hget(table: &str, key: &str) -> (r: Self)
        ensures
            r.request_data matches Some(RequestData::Hget(h)) && h.table@ == table@ && h.key@
                == key@,
    {
        CommandRequest {
            request_data: Some(RequestData::Hget(Hget { table: table.to_owned(), key: key.to_owned() })),
        }
    }

    pub fn new_hgetall(table: &str) -> (r: Self)
        ensures
            r.request_data matches Some(RequestData::Hgetall(h)) && h.table@ == table@,
    {
        CommandRequest { request_data: Some(RequestData::Hgetall(Hgetall { table: table.to_owned() })) }
    }

    pub fn new_hset(table: &str, key: &str, value: Value) -> (r: Self)
        ensures
            r.request_data matches Some(RequestData::Hset(h)) && h.table@ == table@ && (h.pair
                matches Some(p) && p@ == (key@, value@)),
    {
        CommandRequest {
            request_data: Some(RequestData::Hset(Hset { table: table.to_owned(), pair: Some(Kvpair::new(key, value)) })),
        }
    }

    pub fn new_hdel(table: &str, key: &str) -> (r: Self)
        ensures
            r.request_data matches Some(RequestData::Hdel(h)) && h.table@ == table@ && h.key@
                == key@,
    {
        CommandRequest {
            request_data: Some(RequestData::Hdel(Hdel { table: table.to_owned(), key: key.to_owned() })),
        }
    }

    pub fn new_hexist(table: &str, key: &str) -> (r: Self)
        ensures
            r.request_data matches Some(RequestData::Hexist(h)) && h.table@ == table@ && h.key@
                == key@,
    {
        CommandRequest {
            request_data: Some(RequestData::Hexist(Hexist { table: table.to_owned(), key: key.to_owned() })),
        }
    }

    pub fn new_hmget(table: &str, keys: Vec<&str>) -> (r: Self)
        ensures
            r.request_data matches Some(RequestData::Hmget(h)) && h.table@ == table@
                && strings_view(h.keys@) =~= keys@.map_values(|k: &str| k@),
    {
        let keys = to_strings(keys);
        CommandRequest { request_data: Some(RequestData::Hmget(Hmget { table: table.to_owned(), keys })) }
    }

    pub fn new_hmset(table: &str, pairs: Vec<Kvpair>) -> (r: Self)
        ensures
            r.request_data matches Some(RequestData::Hmset(h)) && h.table@ == table@ && h.pairs
                == pairs,
    {
        CommandRequest { request_data: Some(RequestData::Hmset(Hmset { table: table.to_owned(), pairs })) }
    }

    pub fn new_hmdel(table: &str, keys: Vec<&str>) -> (r: Self)
        ensures
            r.request_data matches Some(RequestData::Hmdel(h)) && h.table@ == table@
                && strings_view(h.keys@) =~= keys@.map_values(|k: &str| k@),
    {
        let keys = to_strings(keys);
        CommandRequest { request_data: Some(RequestData::Hmdel(Hmdel { table: table.to_owned(), keys })) }
    }

    pub fn new_hmexist(table: &str, keys: Vec<&str>) -> (r: Self)
        ensures
            r.request_data matches Some(RequestData::Hmexist(h)) && h.table@ == table@
                && strings_view(h.keys@) =~= keys@.map_values(|k: &str| k@),
    {
        let keys = to_strings(keys);
        CommandRequest { request_data: Some(RequestData::Hmexist(Hmexist { table: table.to_owned(), keys })) }
    }

    pub fn new_subscribe(topic: &str) -> (r: Self)
        ensures
            r.request_data matches Some(RequestData::Subscribe(h)) && h.topic@ == topic@,
    {
        CommandRequest { request_data: Some(RequestData::Subscribe(Subscribe { topic: topic.to_owned() })) }
    }

    pub fn new_unsubscribe(topic: &str, id: u32) -> (r: Self)
        ensures
            r.request_data matches Some(RequestData::Unsubscribe(h)) && h.topic@ == topic@ && h.id
                == id,
    {
        CommandRequest {
            request_data: Some(RequestData::Unsubscribe(Unsubscribe { topic: topic.to_owned(), id })),
        }
    }

    pub fn new_publish(topic: &str, data: Vec<Value>) -> (r: Self)
        ensures
            r.request_data matches Some(RequestData::Publish(h)) && h.topic@ == topic@ && h.data
                == data,
    {
        CommandRequest { request_data: Some(RequestData::Publish(Publish { topic: topic.to_owned(), data })) }
    }
}

/// HTTP-like status codes carried in responses.
pub const STATUS_UNSET: u32 = 0;
pub const STATUS_OK: u32 = 200;
pub const STATUS_CREATED: u32 = 201;
pub const STATUS_BAD_REQUEST: u32 = 400;
pub const STATUS_NOT_FOUND: u32 = 404;
pub const STATUS_INTERNAL_SERVER_ERROR: u32 = 500;

/// A response. The default response (status `STATUS_UNSET`, everything empty) is
/// never produced by a storage command.
#[derive(Clone, Debug, PartialEq)]
pub struct CommandResponse {
    pub status: u32,
    pub message: String,
    pub values: Vec<Value>,
    pub pairs: Vec<Kvpair>,
}

/// The mathematical content of a response.
pub struct ResponseView {
    pub status: u32,
    pub message: Seq<char>,
    pub values: Seq<ValueView>,
    pub pairs: Seq<(Seq<char>, ValueView)>,
}

impl View for CommandResponse {
    type V = ResponseView;

    open spec fn view(&self) -> ResponseView {
        ResponseView {
            status: self.status,
            message: self.message@,
            values: values_view(self.values@),
            pairs: pairs_view(self.pairs@),
        }
    }
}

/// A successful response carrying `values`.
pub open spec fn values_response(values: Seq<ValueView>) -> ResponseView {
    ResponseView { status: STATUS_OK, message: Seq::empty(), values, pairs: Seq::empty() }
}

/// A successful response carrying `pairs`.
pub open spec fn pairs_response(pairs: Seq<(Seq<char>, ValueView)>) -> ResponseView {
    ResponseView { status: STATUS_OK, message: Seq::empty(), values: Seq::empty(), pairs }
}

/// A response with only a status: 200 for `true`, 404 for `false`.
pub open spec fn bool_response(b: bool) -> ResponseView {
    ResponseView {
        status: if b { STATUS_OK } else { STATUS_NOT_FOUND },
        message: Seq::empty(),
        values: Seq::empty(),
        pairs: Seq::empty(),
    }
}

impl CommandResponse {
    /// The distinguished unset response.
    pub fn unset() -> (r: Self)
        ensures
            r.is_unset(),
    {
        CommandResponse { status: STATUS_UNSET, message: String::new(), values: Vec::new(), pairs: Vec::new() }
    }

    pub open spec fn is_unset(&self) -> bool {
        self.status == STATUS_UNSET && self.message@.len() == 0 && self.values@.len() == 0
            && self.pairs@.len() == 0
    }

    /// Tells the unset response apart from every other.
    pub fn check_unset(&self) -> (r: bool)
        ensures
            r == self.is_unset(),
    {
        self.status == STATUS_UNSET && self.message.as_str().is_empty() && self.values.len() == 0
            && self.pairs.len() == 0
    }

    /// A successful response with no payload.
    pub fn ok() -> (r: Self)
        ensures
            r@ == bool_response(true),
    {
        Self::from_bool(true)
    }

    pub fn from_value(v: Value) -> (r: Self)
        ensures
            r@ == values_response(seq![v@]),
    {
        let r = CommandResponse { status: STATUS_OK, message: String::new(), values: vec![v], pairs: Vec::new() };
        assert(r@.values =~= seq![v@]);
        assert(r@.pairs =~= Seq::<(Seq<char>, ValueView)>::empty());
        r
    }

    pub fn from_values(values: Vec<Value>) -> (r: Self)
        ensures
            r@ == values_response(values_view(values@)),
    {
        let r = CommandResponse { status: STATUS_OK, message: String::new(), values, pairs: Vec::new() };
        assert(r@.pairs =~= Seq::<(Seq<char>, ValueView)>::empty());
        r
    }

    pub fn from_pairs(pairs: Vec<Kvpair>) -> (r: Self)
        ensures
            r@ == pairs_response(pairs_view(pairs@)),
    {
        let r = CommandResponse { status: STATUS_OK, message: String::new(), values: Vec::new(), pairs };
        assert(r@.values =~= Seq::<ValueView>::empty());
        r
    }

    pub fn from_bool(b: bool) -> (r: Self)
        ensures
            r@ == bool_response(b),
    {
        let r = CommandResponse {
            status: if b { STATUS_OK } else { STATUS_NOT_FOUND },
            message: String::new(),
            values: Vec::new(),
            pairs: Vec::new(),
        };
        assert(r@.values =~= Seq::<ValueView>::empty());
        assert(r@.pairs =~= Seq::<(Seq<char>, ValueView)>::empty());
        r
    }
}

} // verus!
