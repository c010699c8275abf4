use vstd::prelude::*;
use vstd::std_specs::cmp::PartialEqSpecImpl;
use super::Location;
use super::tokenizer::{
    Token, TokenValue, TokenModel, TokenSpec, ParserError, ErrorSpec, tokens_view, same_variant,
    display, error_at, concat, same_number, numbers_equal,
};

verus! {

/// A value read from a scene file. Numbers keep their text as written.
#[derive(Debug)]
pub enum RawValue {
    Number(String),
    String(String),
    Vector(String, String, String),
    Point(String, String, String),
    Color(String, String, String),
    Mapping(RawValueMap),
    TypedMap(TypedRawValueMap),
    Array(RawValueArray),
}

/// A map from names to values, in the order they were written. The maps
/// that the parser builds hold no name twice (`lemma_parsed_map_keys_distinct`);
/// one built by hand may. `location` is where the map starts.
#[derive(Debug)]
pub struct RawValueMap {
    pub location: Location,
    pub map: Vec<(String, RawValue)>,
}

/// A map with a type name, such as `Sphere { radius: 1 }`. It records which
/// keys were asked for, so that unused ones can be reported.
#[derive(Debug)]
pub struct TypedRawValueMap {
    pub name: String,
    map: RawValueMap,
    used_keys: Vec<String>,
}

/// A list of values.
#[derive(Debug)]
pub struct RawValueArray {
    pub array: Vec<RawValue>,
}

/// The mathematical content of a raw value.
pub enum RawModel {
    Number(Seq<char>),
    Str(Seq<char>),
    Vector(Seq<char>, Seq<char>, Seq<char>),
    Point(Seq<char>, Seq<char>, Seq<char>),
    Color(Seq<char>, Seq<char>, Seq<char>),
    Mapping(MapModel),
    TypedMap(Seq<char>, MapModel, Seq<Seq<char>>),
    Array(Seq<RawModel>),
}

/// The mathematical content of a map: where it starts and its entries in
/// order.
pub struct MapModel {
    pub location: Location,
    pub entries: Seq<(Seq<char>, RawModel)>,
}

pub closed spec fn raw_model(v: RawValue) -> RawModel
    decreases v,
{
    match v {
        RawValue::Number(s) => RawModel::Number(s@),
        RawValue::String(s) => RawModel::Str(s@),
        RawValue::Vector(x, y, z) => RawModel::Vector(x@, y@, z@),
        RawValue::Point(x, y, z) => RawModel::Point(x@, y@, z@),
        RawValue::Color(x, y, z) => RawModel::Color(x@, y@, z@),
        RawValue::Mapping(m) => RawModel::Mapping(MapModel { location: m.location, entries: entries_model(m.map@) }),
        RawValue::TypedMap(t) => RawModel::TypedMap(
            t.name@,
            MapModel { location: t.map.location, entries: entries_model(t.map.map@) },
            strings_model(t.used_keys@),
        ),
        RawValue::Array(a) => RawModel::Array(values_model(a.array@)),
    }
}

pub closed spec fn entries_model(es: Seq<(String, RawValue)>) -> Seq<(Seq<char>, RawModel)>
    decreases es,
{
    if es.len() == 0 {
        Seq::empty()
    } else {
        entries_model(es.subrange(0, es.len() - 1)).push(
            (es[es.len() - 1].0@, raw_model(es[es.len() - 1].1)),
        )
    }
}

pub closed spec fn values_model(vs: Seq<RawValue>) -> Seq<RawModel>
    decreases vs,
{
    if vs.len() == 0 {
        Seq::empty()
    } else {
        values_model(vs.subrange(0, vs.len() - 1)).push(raw_model(vs[vs.len() - 1]))
    }
}

pub open spec fn strings_model(ss: Seq<String>) -> Seq<Seq<char>> {
    ss.map_values(|s: String| s@)
}

impl View for RawValue {
    type V = RawModel;

    open spec fn view(&self) -> RawModel {
        raw_model(*self)
    }
}

impl View for RawValueMap {
    type V = MapModel;

    open spec fn view(&self) -> MapModel {
        MapModel { location: self.location, entries: entries_model(self.map@) }
    }
}

impl View for TypedRawValueMap {
    type V = (Seq<char>, MapModel);

    /// The type name and the entries; which keys were asked for is left out.
    open spec fn view(&self) -> (Seq<char>, MapModel) {
        (self.spec_name(), self.spec_map())
    }
}

impl View for RawValueArray {
    type V = Seq<RawModel>;

    open spec fn view(&self) -> Seq<RawModel> {
        values_model(self.array@)
    }
}

/// A parse that cannot happen on well-formed input: the position left the
/// tokens, or a step consumed nothing.
pub open spec fn out_of_tokens() -> ErrorSpec {
    ErrorSpec { message: Seq::empty(), location: None }
}

/// The error for finding `got` where a token like `expected` was wanted.
pub open spec fn unexpected(expected: TokenModel, got: TokenSpec) -> ErrorSpec {
    error_at("Expected "@ + display(expected) + ", got "@ + display(got.value), got.location)
}

/// Reads one token that must be of the same kind as `expected`.
pub open spec fn expect_variant(ts: Seq<TokenSpec>, i: int, expected: TokenModel) -> Result<(TokenSpec, int), ErrorSpec> {
    if i < 0 || i >= ts.len() {
        Err(out_of_tokens())
    } else if same_variant(ts[i].value, expected) {
        Ok((ts[i], i + 1))
    } else {
        Err(unexpected(expected, ts[i]))
    }
}

/// Reads one number token; gives its text.
pub open spec fn expect_number(ts: Seq<TokenSpec>, i: int) -> Result<(Seq<char>, int), ErrorSpec> {
    if i < 0 || i >= ts.len() {
        Err(out_of_tokens())
    } else {
        match ts[i].value {
            TokenModel::Number(n) => Ok((n, i + 1)),
            v => Err(error_at("Expected number, got "@ + display(v), ts[i].location)),
        }
    }
}

/// Reads one identifier token; gives its name.
pub open spec fn expect_identifier(ts: Seq<TokenSpec>, i: int) -> Result<(Seq<char>, int), ErrorSpec> {
    if i < 0 || i >= ts.len() {
        Err(out_of_tokens())
    } else {
        match ts[i].value {
            TokenModel::Identifier(n) => Ok((n, i + 1)),
            v => Err(error_at("Expected identifier, got "@ + display(v), ts[i].location)),
        }
    }
}

/// Reads `(x, y, z)` where each of `x`, `y`, `z` is a number.
pub open spec fn parse_triple(ts: Seq<TokenSpec>, i: int) -> Result<((Seq<char>, Seq<char>, Seq<char>), int), ErrorSpec> {
    match expect_variant(ts, i, TokenModel::LeftParen) {
        Err(e) => Err(e),
        Ok((_, i1)) => match expect_number(ts, i1) {
            Err(e) => Err(e),
            Ok((x, i2)) => match expect_variant(ts, i2, TokenModel::Comma) {
                Err(e) => Err(e),
                Ok((_, i3)) => match expect_number(ts, i3) {
                    Err(e) => Err(e),
                    Ok((y, i4)) => match expect_variant(ts, i4, TokenModel::Comma) {
                        Err(e) => Err(e),
                        Ok((_, i5)) => match expect_number(ts, i5) {
                            Err(e) => Err(e),
                            Ok((z, i6)) => match expect_variant(ts, i6, TokenModel::RightParen) {
                                Err(e) => Err(e),
                                Ok((_, i7)) => Ok(((x, y, z), i7)),
                            },
                        },
                    },
                },
            },
        },
    }
}

/// RawValue := Number | String | Vector | Point | Color | Map | TypedMap | Array
///
/// Reads the value starting at token `i`; gives it and the position after it.
pub open spec fn parse_value(ts: Seq<TokenSpec>, i: int) -> Result<(RawModel, int), ErrorSpec>
    decreases ts.len() - i, 3int,
{
    if i < 0 || i >= ts.len() {
        Err(out_of_tokens())
    } else {
        match ts[i].value {
            TokenModel::Number(n) => Ok((RawModel::Number(n), i + 1)),
            TokenModel::Str(s) => Ok((RawModel::Str(s), i + 1)),
            TokenModel::Identifier(name) => if i + 1 >= ts.len() {
                Err(out_of_tokens())
            } else {
                let opener = ts[i + 1];
                match opener.value {
                    TokenModel::LeftParen => {
                        if name == "Vector"@ {
                            match parse_triple(ts, i + 1) {
                                Err(e) => Err(e),
                                Ok(((x, y, z), k)) => Ok((RawModel::Vector(x, y, z), k)),
                            }
                        } else if name == "Point"@ {
                            match parse_triple(ts, i + 1) {
                                Err(e) => Err(e),
                                Ok(((x, y, z), k)) => Ok((RawModel::Point(x, y, z), k)),
                            }
                        } else if name == "Color"@ {
                            match parse_triple(ts, i + 1) {
                                Err(e) => Err(e),
                                Ok(((x, y, z), k)) => Ok((RawModel::Color(x, y, z), k)),
                            }
                        } else {
                            parse_typed_map(ts, i + 1)
                        }
                    },
                    TokenModel::LeftBrace => match parse_map(ts, i + 1) {
                        Err(e) => Err(e),
                        Ok((m, k)) => Ok((RawModel::TypedMap(name, m, Seq::empty()), k)),
                    },
                    v => Err(error_at("Expected '(' or '{', got "@ + display(v), opener.location)),
                }
            },
            TokenModel::LeftBrace => match parse_map(ts, i) {
                Err(e) => Err(e),
                Ok((m, k)) => Ok((RawModel::Mapping(m), k)),
            },
            TokenModel::LeftBracket => match parse_array(ts, i) {
                Err(e) => Err(e),
                Ok((a, k)) => Ok((RawModel::Array(a), k)),
            },
            _ => Err(unexpected_value(ts, i)),
        }
    }
}

/// The error for a token that cannot start a value.
pub open spec fn unexpected_value(ts: Seq<TokenSpec>, i: int) -> ErrorSpec {
    if 0 <= i < ts.len() {
        error_at("Expected a raw value. Got "@ + display(ts[i].value), ts[i].location)
    } else {
        out_of_tokens()
    }
}

/// TypedMap := Identifier Map
pub open spec fn parse_typed_map(ts: Seq<TokenSpec>, i: int) -> Result<(RawModel, int), ErrorSpec>
    decreases ts.len() - i, 2int,
{
    match expect_identifier(ts, i) {
        Err(e) => Err(e),
        Ok((name, i1)) => if i1 <= i {
            Err(out_of_tokens())
        } else {
            match parse_map(ts, i1) {
                Err(e) => Err(e),
                Ok((m, k)) => Ok((RawModel::TypedMap(name, m, Seq::empty()), k)),
            }
        },
    }
}

/// Map := '{' Entries '}'
/// Entries := ɸ | Entry (',' Entry)* ','?
/// Entry := Identifier ':' RawValue
pub open spec fn parse_map(ts: Seq<TokenSpec>, i: int) -> Result<(MapModel, int), ErrorSpec>
    decreases ts.len() - i, 1int,
{
    match expect_variant(ts, i, TokenModel::LeftBrace) {
        Err(e) => Err(e),
        Ok((start, i1)) => if i1 <= i {
            Err(out_of_tokens())
        } else {
            parse_entries(ts, i1, start.location, Seq::empty())
        },
    }
}

/// Whether `key` is among the keys of `entries`.
pub open spec fn has_key(entries: Seq<(Seq<char>, RawModel)>, key: Seq<char>) -> bool {
    exists|k: int| 0 <= k < entries.len() && #[trigger] entries[k].0 == key
}

/// Reads the closing brace of a map whose entries are `entries`.
pub open spec fn close_map(ts: Seq<TokenSpec>, k: int, location: Location, entries: Seq<(Seq<char>, RawModel)>) -> Result<(MapModel, int), ErrorSpec> {
    match expect_variant(ts, k, TokenModel::RightBrace) {
        Err(e) => Err(e),
        Ok((_, k1)) => Ok((MapModel { location, entries }, k1)),
    }
}

/// Reads the entries of a map from token `j` on, after those already read.
pub open spec fn parse_entries(
    ts: Seq<TokenSpec>,
    j: int,
    location: Location,
    entries: Seq<(Seq<char>, RawModel)>,
) -> Result<(MapModel, int), ErrorSpec>
    decreases ts.len() - j, 0int,
{
    if j < 0 || j >= ts.len() {
        Err(out_of_tokens())
    } else {
        match ts[j].value {
            TokenModel::Identifier(key) => match expect_variant(ts, j + 1, TokenModel::Colon) {
                Err(e) => Err(e),
                Ok((_, j2)) => if j2 <= j {
                    Err(out_of_tokens())
                } else {
                    match parse_value(ts, j2) {
                        Err(e) => Err(e),
                        Ok((v, k)) => if has_key(entries, key) {
                            Err(error_at("Duplicate key "@ + key, location))
                        } else if k <= j || k >= ts.len() {
                            Err(out_of_tokens())
                        } else {
                            let entries = entries.push((key, v));
                            match ts[k].value {
                                TokenModel::RightBrace => close_map(ts, k, location, entries),
                                TokenModel::Comma => parse_entries(ts, k + 1, location, entries),
                                _ => close_map(ts, k, location, entries),
                            }
                        },
                    }
                },
            },
            _ => close_map(ts, j, location, entries),
        }
    }
}

/// Array := '[' Items ']'
/// Items := ɸ | RawValue (',' Items)* ','?
pub open spec fn parse_array(ts: Seq<TokenSpec>, i: int) -> Result<(Seq<RawModel>, int), ErrorSpec>
    decreases ts.len() - i, 1int,
{
    match expect_variant(ts, i, TokenModel::LeftBracket) {
        Err(e) => Err(e),
        Ok((_, i1)) => if i1 <= i {
            Err(out_of_tokens())
        } else {
            parse_items(ts, i1, Seq::empty())
        },
    }
}

/// Reads the closing bracket of an array whose items are `items`.
pub open spec fn close_array(ts: Seq<TokenSpec>, k: int, items: Seq<RawModel>) -> Result<(Seq<RawModel>, int), ErrorSpec> {
    match expect_variant(ts, k, TokenModel::RightBracket) {
        Err(e) => Err(e),
        Ok((_, k1)) => Ok((items, k1)),
    }
}

/// Reads the items of an array from token `j` on, after those already read.
pub open spec fn parse_items(ts: Seq<TokenSpec>, j: int, items: Seq<RawModel>) -> Result<(Seq<RawModel>, int), ErrorSpec>
    decreases ts.len() - j, 4int,
{
    if j < 0 || j >= ts.len() {
        Err(out_of_tokens())
    } else {
        match ts[j].value {
            TokenModel::RightBracket => close_array(ts, j, items),
            _ => match parse_value(ts, j) {
                Err(e) => Err(e),
                Ok((v, k)) => if k <= j || k >= ts.len() {
                    Err(out_of_tokens())
                } else {
                    let items = items.push(v);
                    match ts[k].value {
                        TokenModel::RightBracket => close_array(ts, k, items),
                        TokenModel::Comma => parse_items(ts, k + 1, items),
                        _ => close_array(ts, k, items),
                    }
                },
            },
        }
    }
}

/// Whether token lists `ts` and `us` hold the same tokens at positions `a`
/// up to `b` (excluded), and `us` reaches at least to `b`.
pub open spec fn agree_on(ts: Seq<TokenSpec>, us: Seq<TokenSpec>, a: int, b: int) -> bool {
    &&& b <= us.len()
    &&& forall|k: int| a <= k < b ==> #[trigger] us[k] == ts[k]
}

proof fn lemma_value_local(ts: Seq<TokenSpec>, us: Seq<TokenSpec>, i: int)
    ensures
        parse_value(ts, i) matches Ok((_, e)) ==> i < e && (agree_on(ts, us, i, e) ==> parse_value(us, i) == parse_value(ts, i)),
    decreases ts.len() - i, 3int,
{
    if 0 <= i < ts.len() {
        if let TokenModel::Identifier(name) = ts[i].value {
            if i + 1 < ts.len() {
                match ts[i + 1].value {
                    TokenModel::LeftParen => {
                        if !(name == "Vector"@ || name == "Point"@ || name == "Color"@) {
                            lemma_typed_map_local(ts, us, i + 1);
                        }
                    },
                    TokenModel::LeftBrace => {
                        lemma_map_local(ts, us, i + 1);
                    },
                    _ => {},
                }
            }
        } else if let TokenModel::LeftBrace = ts[i].value {
            lemma_map_local(ts, us, i);
        } else if let TokenModel::LeftBracket = ts[i].value {
            lemma_array_local(ts, us, i);
        }
    }
}

proof fn lemma_typed_map_local(ts: Seq<TokenSpec>, us: Seq<TokenSpec>, i: int)
    ensures
        parse_typed_map(ts, i) matches Ok((_, e)) ==> i < e && (agree_on(ts, us, i, e) ==> parse_typed_map(us, i) == parse_typed_map(ts, i)),
    decreases ts.len() - i, 2int,
{
    if let Ok((_, i1)) = expect_identifier(ts, i) {
        if i1 > i {
            lemma_map_local(ts, us, i1);
        }
    }
}

proof fn lemma_map_local(ts: Seq<TokenSpec>, us: Seq<TokenSpec>, i: int)
    ensures
        parse_map(ts, i) matches Ok((_, e)) ==> i < e && (agree_on(ts, us, i, e) ==> parse_map(us, i) == parse_map(ts, i)),
    decreases ts.len() - i, 1int,
{
    if let Ok((start, i1)) = expect_variant(ts, i, TokenModel::LeftBrace) {
        if i1 > i {
            lemma_entries_local(ts, us, i1, start.location, Seq::empty());
        }
    }
}

proof fn lemma_entries_local(
    ts: Seq<TokenSpec>,
    us: Seq<TokenSpec>,
    j: int,
    location: Location,
    entries: Seq<(Seq<char>, RawModel)>,
)
    ensures
        parse_entries(ts, j, location, entries) matches Ok((_, e)) ==> j < e && (agree_on(ts, us, j, e) ==> parse_entries(
            us,
            j,
            location,
            entries,
        ) == parse_entries(ts, j, location, entries)),
    decreases ts.len() - j, 0int,
{
    if 0 <= j < ts.len() {
        if let TokenModel::Identifier(key) = ts[j].value {
            if let Ok((_, j2)) = expect_variant(ts, j + 1, TokenModel::Colon) {
                if j2 > j {
                    lemma_value_local(ts, us, j2);
                    if let Ok((v, k)) = parse_value(ts, j2) {
                        if !has_key(entries, key) && k > j && k < ts.len() {
                            if let TokenModel::Comma = ts[k].value {
                                lemma_entries_local(ts, us, k + 1, location, entries.push((key, v)));
                            }
                        }
                    }
                }
            }
        }
    }
}

proof fn lemma_array_local(ts: Seq<TokenSpec>, us: Seq<TokenSpec>, i: int)
    ensures
        parse_array(ts, i) matches Ok((_, e)) ==> i < e && (agree_on(ts, us, i, e) ==> parse_array(us, i) == parse_array(ts, i)),
    decreases ts.len() - i, 1int,
{
    if let Ok((_, i1)) = expect_variant(ts, i, TokenModel::LeftBracket) {
        if i1 > i {
            lemma_items_local(ts, us, i1, Seq::empty());
        }
    }
}

proof fn lemma_items_local(ts: Seq<TokenSpec>, us: Seq<TokenSpec>, j: int, items: Seq<RawModel>)
    ensures
        parse_items(ts, j, items) matches Ok((_, e)) ==> j < e && (agree_on(ts, us, j, e) ==> parse_items(us, j, items)
            == parse_items(ts, j, items)),
    decreases ts.len() - j, 4int,
{
    if 0 <= j < ts.len() {
        if !(ts[j].value is RightBracket) {
            lemma_value_local(ts, us, j);
            if let Ok((v, k)) = parse_value(ts, j) {
                if k > j && k < ts.len() {
                    if let TokenModel::Comma = ts[k].value {
                        lemma_items_local(ts, us, k + 1, items.push(v));
                    }
                }
            }
        }
    }
}

/// Reading a value looks at its own tokens only: when the tokens from `i` on
/// read as a value that ends at `j`, the value takes at least one token, and
/// any token list that holds the same tokens from `i` up to `j` reads the
/// same value, ending at the same `j`, whatever follows it.
pub proof fn lemma_value_reads_exactly(ts: Seq<TokenSpec>, us: Seq<TokenSpec>, i: int)
    requires
        parse_value(ts, i) is Ok,
        agree_on(ts, us, i, parse_value(ts, i)->Ok_0.1),
    ensures
        i < parse_value(ts, i)->Ok_0.1,
        parse_value(us, i) == parse_value(ts, i),
{
    lemma_value_local(ts, us, i);
}

/// Reading a map looks at its own tokens only, as for a value.
pub proof fn lemma_map_reads_exactly(ts: Seq<TokenSpec>, us: Seq<TokenSpec>, i: int)
    requires
        parse_map(ts, i) is Ok,
        agree_on(ts, us, i, parse_map(ts, i)->Ok_0.1),
    ensures
        i < parse_map(ts, i)->Ok_0.1,
        parse_map(us, i) == parse_map(ts, i),
{
    lemma_map_local(ts, us, i);
}

/// The model of entries with one more entry at the end.
proof fn lemma_entries_push(es: Seq<(String, RawValue)>, e: (String, RawValue))
    ensures
        entries_model(es.push(e)) == entries_model(es).push((e.0@, raw_model(e.1))),
{
    assert(es.push(e).subrange(0, es.len() as int) =~= es);
}

/// The model of values with one more value at the end.
proof fn lemma_values_push(vs: Seq<RawValue>, v: RawValue)
    ensures
        values_model(vs.push(v)) == values_model(vs).push(raw_model(v)),
{
    assert(vs.push(v).subrange(0, vs.len() as int) =~= vs);
}

/// Each entry's model is the model of the entry.
proof fn lemma_entries_index(es: Seq<(String, RawValue)>)
    ensures
        entries_model(es).len() == es.len(),
        forall|k: int|
            0 <= k < es.len() ==> #[trigger] entries_model(es)[k] == (es[k].0@, raw_model(es[k].1)),
    decreases es.len(),
{
    if es.len() > 0 {
        lemma_entries_index(es.subrange(0, es.len() - 1));
    }
}

/// Each value's model is the model of the value.
proof fn lemma_values_index(vs: Seq<RawValue>)
    ensures
        values_model(vs).len() == vs.len(),
        forall|k: int| 0 <= k < vs.len() ==> #[trigger] values_model(vs)[k] == raw_model(vs[k]),
    decreases vs.len(),
{
    if vs.len() > 0 {
        lemma_values_index(vs.subrange(0, vs.len() - 1));
    }
}

/// The model of a raw value, one variant at a time.
pub proof fn lemma_raw_model(v: RawValue)
    ensures
        match v {
            RawValue::Number(s) => v@ == RawModel::Number(s@),
            RawValue::String(s) => v@ == RawModel::Str(s@),
            RawValue::Vector(x, y, z) => v@ == RawModel::Vector(x@, y@, z@),
            RawValue::Point(x, y, z) => v@ == RawModel::Point(x@, y@, z@),
            RawValue::Color(x, y, z) => v@ == RawModel::Color(x@, y@, z@),
            RawValue::Mapping(m) => v@ == RawModel::Mapping(m@),
            RawValue::TypedMap(t) => v@ == RawModel::TypedMap(t.spec_name(), t.spec_map(), t.spec_used_keys()),
            RawValue::Array(a) => v@ == RawModel::Array(a@),
        },
{
}

/// The entries of a map's model are the models of its entries.
pub proof fn lemma_map_entries(m: RawValueMap)
    ensures
        m@.entries.len() == m.map@.len(),
        forall|k: int| 0 <= k < m.map@.len() ==> #[trigger] m@.entries[k] == (m.map@[k].0@, m.map@[k].1@),
{
    lemma_entries_index(m.map@);
}

/// The items of an array's model are the models of its items.
pub proof fn lemma_array_items(a: RawValueArray)
    ensures
        a@.len() == a.array@.len(),
        forall|k: int| 0 <= k < a.array@.len() ==> #[trigger] a@[k] == a.array@[k]@,
{
    lemma_values_index(a.array@);
}

/// A cursor over a list of tokens that ends with an end-of-file token.
pub struct TokenStream<'a> {
    tokens: &'a Vec<Token>,
    pos: usize,
}

impl<'a> TokenStream<'a> {
    pub closed spec fn spec_tokens(&self) -> Seq<TokenSpec> {
        tokens_view(self.tokens@)
    }

    pub closed spec fn spec_pos(&self) -> int {
        self.pos as int
    }

    /// The tokens end with an end-of-file token, and the cursor is on a
    /// token.
    pub open spec fn wf(&self) -> bool {
        &&& self.spec_tokens().len() > 0
        &&& self.spec_tokens().last().value is Eof
        &&& 0 <= self.spec_pos() < self.spec_tokens().len()
    }

    /// The cursor never passes the end of the tokens.
    #[verifier::type_invariant]
    spec fn in_bounds(&self) -> bool {
        self.pos <= self.tokens@.len()
    }

    pub fn new(tokens: &'a Vec<Token>) -> (s: Self)
        requires
            tokens@.len() > 0,
            tokens@.last().value@ is Eof,
        ensures
            s.wf(),
            s.spec_tokens() == tokens_view(tokens@),
            s.spec_pos() == 0,
    {
        TokenStream { tokens, pos: 0 }
    }

    /// The next token, without reading it; `None` once every token was read.
    pub fn peek(&self) -> (t: Option<&'a Token>)
        ensures
            self.spec_pos() < self.spec_tokens().len() ==> (t matches Some(t) && t@ == self.spec_tokens()[self.spec_pos()]),
            self.spec_pos() >= self.spec_tokens().len() ==> t is None,
    {
        assert(self.tokens@.len() == self.spec_tokens().len());
        if self.pos < self.tokens.len() {
            Some(&self.tokens[self.pos])
        } else {
            None
        }
    }

    /// Reads the next token; `None` once every token was read.
    pub fn next(&mut self) -> (t: Option<&'a Token>)
        ensures
            final(self).spec_tokens() == old(self).spec_tokens(),
            old(self).spec_pos() < old(self).spec_tokens().len() ==> {
                &&& t matches Some(t) && t@ == old(self).spec_tokens()[old(self).spec_pos()]
                &&& final(self).spec_pos() == old(self).spec_pos() + 1
            },
            old(self).spec_pos() >= old(self).spec_tokens().len() ==> t is None && final(self).spec_pos() == old(self).spec_pos(),
            old(self).wf() && !(old(self).spec_tokens()[old(self).spec_pos()].value is Eof) ==> final(self).wf(),
    {
        proof {
            use_type_invariant(&*self);
        }
        assert(self.tokens@.len() == self.spec_tokens().len());
        if self.pos < self.tokens.len() {
            let t = &self.tokens[self.pos];
            self.pos = self.pos + 1;
            Some(t)
        } else {
            None
        }
    }
}

/// Whether `a` is the text `b`.
pub(crate) fn text_is(a: &String, b: &str) -> (r: bool)
    ensures
        r == (a@ == b@),
{
    let b = b.to_owned();
    *a == b
}

/// The error for finding `got` where a token like `expected` was wanted.
fn unexpected_error(expected: &TokenValue, got: &Token) -> (e: ParserError)
    ensures
        e@ == unexpected(expected@, got@),
{
    let message = concat(
        concat(concat("Expected ", expected.to_string().as_str()).as_str(), ", got ").as_str(),
        got.value.to_string().as_str(),
    );
    ParserError::new(message.as_str(), &got.location)
}

/// Checks that the next token is of the same variant as the expected token.
/// DOES NOT COMPARE THE TOKEN VALUES
fn expect_token_variant(tokens: &mut TokenStream, expected: &TokenValue) -> (r: Result<Token, ParserError>)
    requires
        old(tokens).wf(),
        !(expected@ is Eof),
    ensures
        final(tokens).spec_tokens() == old(tokens).spec_tokens(),
        match r {
            Ok(t) => expect_variant(old(tokens).spec_tokens(), old(tokens).spec_pos(), expected@) == Ok::<(TokenSpec, int), ErrorSpec>((t@, final(tokens).spec_pos())) && final(tokens).wf(),
            Err(e) => expect_variant(old(tokens).spec_tokens(), old(tokens).spec_pos(), expected@) == Err::<(TokenSpec, int), ErrorSpec>(e@),
        },
{
    // We can unwrap safely due to the EOF token
    let token = tokens.next().unwrap();
    if token.value.is_eq_variant(expected) {
        Ok(token.clone())
    } else {
        Err(unexpected_error(expected, token))
    }
}

fn expect_number_token(tokens: &mut TokenStream) -> (r: Result<String, ParserError>)
    requires
        old(tokens).wf(),
    ensures
        final(tokens).spec_tokens() == old(tokens).spec_tokens(),
        match r {
            Ok(n) => expect_number(old(tokens).spec_tokens(), old(tokens).spec_pos()) == Ok::<(Seq<char>, int), ErrorSpec>((n@, final(tokens).spec_pos())) && final(tokens).wf(),
            Err(e) => expect_number(old(tokens).spec_tokens(), old(tokens).spec_pos()) == Err::<(Seq<char>, int), ErrorSpec>(e@),
        },
{
    // We can unwrap safely due to the EOF token
    let token = tokens.next().unwrap();
    match &token.value {
        TokenValue::Number(n) => Ok(n.clone()),
        value => {
            let message = concat("Expected number, got ", value.to_string().as_str());
            Err(ParserError::new(message.as_str(), &token.location))
        },
    }
}

fn expect_identifier_token(tokens: &mut TokenStream) -> (r: Result<String, ParserError>)
    requires
        old(tokens).wf(),
    ensures
        final(tokens).spec_tokens() == old(tokens).spec_tokens(),
        match r {
            Ok(n) => expect_identifier(old(tokens).spec_tokens(), old(tokens).spec_pos()) == Ok::<(Seq<char>, int), ErrorSpec>((n@, final(tokens).spec_pos())) && final(tokens).wf(),
            Err(e) => expect_identifier(old(tokens).spec_tokens(), old(tokens).spec_pos()) == Err::<(Seq<char>, int), ErrorSpec>(e@),
        },
{
    // We can unwrap safely due to the EOF token
    let token = tokens.next().unwrap();
    match &token.value {
        TokenValue::Identifier(name) => Ok(name.clone()),
        value => {
            let message = concat("Expected identifier, got ", value.to_string().as_str());
            Err(ParserError::new(message.as_str(), &token.location))
        },
    }
}

/// Reads `(x, y, z)` where each of `x`, `y`, `z` is a number.
fn parse_triple_tokens(tokens: &mut TokenStream) -> (r: Result<(String, String, String), ParserError>)
    requires
        old(tokens).wf(),
    ensures
        final(tokens).spec_tokens() == old(tokens).spec_tokens(),
        match r {
            Ok(t) => parse_triple(old(tokens).spec_tokens(), old(tokens).spec_pos()) == Ok::<((Seq<char>, Seq<char>, Seq<char>), int), ErrorSpec>(((t.0@, t.1@, t.2@), final(tokens).spec_pos())) && final(tokens).wf(),
            Err(e) => parse_triple(old(tokens).spec_tokens(), old(tokens).spec_pos()) is Err && parse_triple(old(tokens).spec_tokens(), old(tokens).spec_pos())->Err_0 == e@,
        },
{
    match expect_token_variant(tokens, &TokenValue::LeftParen) {
        Ok(_) => {},
        Err(e) => return Err(e),
    }
    let x = match expect_number_token(tokens) {
        Ok(x) => x,
        Err(e) => return Err(e),
    };
    match expect_token_variant(tokens, &TokenValue::Comma) {
        Ok(_) => {},
        Err(e) => return Err(e),
    }
    let y = match expect_number_token(tokens) {
        Ok(y) => y,
        Err(e) => return Err(e),
    };
    match expect_token_variant(tokens, &TokenValue::Comma) {
        Ok(_) => {},
        Err(e) => return Err(e),
    }
    let z = match expect_number_token(tokens) {
        Ok(z) => z,
        Err(e) => return Err(e),
    };
    match expect_token_variant(tokens, &TokenValue::RightParen) {
        Ok(_) => {},
        Err(e) => return Err(e),
    }
    Ok((x, y, z))
}

/// Whether `key` is among the keys of `map`.
fn contains_key(map: &Vec<(String, RawValue)>, key: &String) -> (r: bool)
    ensures
        r == has_key(entries_model(map@), key@),
{
    proof {
        lemma_entries_index(map@);
    }
    let mut k: usize = 0;
    while k < map.len()
        invariant
            k <= map@.len(),
            entries_model(map@).len() == map@.len(),
            forall|m: int| 0 <= m < map@.len() ==> #[trigger] entries_model(map@)[m] == (map@[m].0@, raw_model(map@[m].1)),
            forall|m: int| 0 <= m < k ==> map@[m].0@ != key@,
        decreases map@.len() - k,
    {
        if map[k].0 == *key {
            assert(entries_model(map@)[k as int].0 == key@);
            return true;
        }
        k += 1;
    }
    proof {
        if has_key(entries_model(map@), key@) {
            let m = choose|m: int| 0 <= m < entries_model(map@).len() && #[trigger] entries_model(map@)[m].0 == key@;
            assert(map@[m].0@ == key@);
        }
    }
    false
}

impl RawValue {
    /// RawValue := Number | String | Vector | Point | Color | Map | TypedMap | Array
    pub fn from_tokens(tokens: &mut TokenStream) -> (r: Result<RawValue, ParserError>)
        requires
            old(tokens).wf(),
        ensures
            final(tokens).spec_tokens() == old(tokens).spec_tokens(),
            match r {
                Ok(v) => parse_value(old(tokens).spec_tokens(), old(tokens).spec_pos()) == Ok::<(RawModel, int), ErrorSpec>((v@, final(tokens).spec_pos())) && final(tokens).wf() && final(tokens).spec_pos() > old(tokens).spec_pos(),
                Err(e) => parse_value(old(tokens).spec_tokens(), old(tokens).spec_pos()) is Err && parse_value(old(tokens).spec_tokens(), old(tokens).spec_pos())->Err_0 == e@,
            },
        decreases old(tokens).spec_tokens().len() - old(tokens).spec_pos(), 3int,
    {
        let ghost ts = tokens.spec_tokens();
        let ghost i = tokens.spec_pos();
        // We can unwrap safely due to the EOF token
        let token = tokens.peek().unwrap();
        match &token.value {
            TokenValue::Number(n) => {
                tokens.next();
                Ok(RawValue::Number(n.clone()))
            },
            TokenValue::String(s) => {
                tokens.next();
                Ok(RawValue::String(s.clone()))
            },
            TokenValue::Identifier(name) => {
                tokens.next();
                let opener = tokens.peek().unwrap();
                match &opener.value {
                    TokenValue::LeftParen => {
                        if text_is(name, "Vector") {
                            match parse_triple_tokens(tokens) {
                                Ok((x, y, z)) => Ok(RawValue::Vector(x, y, z)),
                                Err(e) => Err(e),
                            }
                        } else if text_is(name, "Point") {
                            match parse_triple_tokens(tokens) {
                                Ok((x, y, z)) => Ok(RawValue::Point(x, y, z)),
                                Err(e) => Err(e),
                            }
                        } else if text_is(name, "Color") {
                            match parse_triple_tokens(tokens) {
                                Ok((x, y, z)) => Ok(RawValue::Color(x, y, z)),
                                Err(e) => Err(e),
                            }
                        } else {
                            match TypedRawValueMap::from_tokens(tokens) {
                                Ok(m) => Ok(RawValue::TypedMap(m)),
                                Err(e) => Err(e),
                            }
                        }
                    },
                    TokenValue::LeftBrace => match RawValueMap::from_tokens(tokens) {
                        Ok(map) => {
                            let t = TypedRawValueMap { name: name.clone(), map, used_keys: Vec::new() };
                            proof {
                                assert(strings_model(t.used_keys@) =~= Seq::<Seq<char>>::empty());
                            }
                            Ok(RawValue::TypedMap(t))
                        },
                        Err(e) => Err(e),
                    },
                    value => {
                        let message = concat("Expected '(' or '{', got ", value.to_string().as_str());
                        Err(ParserError::new(message.as_str(), &opener.location))
                    },
                }
            },
            TokenValue::LeftBrace => match RawValueMap::from_tokens(tokens) {
                Ok(map) => Ok(RawValue::Mapping(map)),
                Err(e) => Err(e),
            },
            TokenValue::LeftBracket => match RawValueArray::from_tokens(tokens) {
                Ok(array) => Ok(RawValue::Array(array)),
                Err(e) => Err(e),
            },
            value => {
                let message = concat("Expected a raw value. Got ", value.to_string().as_str());
                Err(ParserError::new(message.as_str(), &token.location))
            },
        }
    }
}

impl TypedRawValueMap {
    /// TypedMap := Identifier Map
    fn from_tokens(tokens: &mut TokenStream) -> (r: Result<Self, ParserError>)
        requires
            old(tokens).wf(),
        ensures
            final(tokens).spec_tokens() == old(tokens).spec_tokens(),
            match r {
                Ok(m) => parse_typed_map(old(tokens).spec_tokens(), old(tokens).spec_pos()) == Ok::<(RawModel, int), ErrorSpec>((raw_model(RawValue::TypedMap(m)), final(tokens).spec_pos())) && final(tokens).wf() && final(tokens).spec_pos() > old(tokens).spec_pos(),
                Err(e) => parse_typed_map(old(tokens).spec_tokens(), old(tokens).spec_pos()) is Err && parse_typed_map(old(tokens).spec_tokens(), old(tokens).spec_pos())->Err_0 == e@,
            },
        decreases old(tokens).spec_tokens().len() - old(tokens).spec_pos(), 2int,
    {
        let name = match expect_identifier_token(tokens) {
            Ok(name) => name,
            Err(e) => return Err(e),
        };
        let map = match RawValueMap::from_tokens(tokens) {
            Ok(map) => map,
            Err(e) => return Err(e),
        };
        let t = TypedRawValueMap { name, map, used_keys: Vec::new() };
        proof {
            assert(strings_model(t.used_keys@) =~= Seq::<Seq<char>>::empty());
        }
        Ok(t)
    }
}

impl RawValueMap {
    /// Parses a map with raw values
    ///
    /// Map := '{' Entries '}'
    /// Entries := ɸ | Entry (',' Entry)* ','?
    /// Entry := Identifier ':' RawValue
    pub fn from_tokens(tokens: &mut TokenStream) -> (r: Result<Self, ParserError>)
        requires
            old(tokens).wf(),
        ensures
            final(tokens).spec_tokens() == old(tokens).spec_tokens(),
            match r {
                Ok(m) => parse_map(old(tokens).spec_tokens(), old(tokens).spec_pos()) == Ok::<(MapModel, int), ErrorSpec>((m@, final(tokens).spec_pos())) && final(tokens).wf() && final(tokens).spec_pos() > old(tokens).spec_pos(),
                Err(e) => parse_map(old(tokens).spec_tokens(), old(tokens).spec_pos()) is Err && parse_map(old(tokens).spec_tokens(), old(tokens).spec_pos())->Err_0 == e@,
            },
        decreases old(tokens).spec_tokens().len() - old(tokens).spec_pos(), 1int,
    {
        let ghost ts = tokens.spec_tokens();
        let ghost i = tokens.spec_pos();
        let mut map: Vec<(String, RawValue)> = Vec::new();
        let start_token = match expect_token_variant(tokens, &TokenValue::LeftBrace) {
            Ok(t) => t,
            Err(e) => return Err(e),
        };
        let location = start_token.location;
        assert(entries_model(map@) =~= Seq::<(Seq<char>, RawModel)>::empty());
        loop
            invariant_except_break
                parse_map(ts, i) == parse_entries(ts, tokens.spec_pos(), location, entries_model(map@)),
            invariant
                tokens.wf(),
                tokens.spec_tokens() == ts,
                i == old(tokens).spec_pos(),
                ts == old(tokens).spec_tokens(),
                tokens.spec_pos() > i,
            ensures
                tokens.wf(),
                tokens.spec_tokens() == ts,
                tokens.spec_pos() > i,
                parse_map(ts, i) == close_map(ts, tokens.spec_pos(), location, entries_model(map@)),
            decreases ts.len() - tokens.spec_pos(),
        {
            let ghost j = tokens.spec_pos();
            // We can unwrap safely due to the EOF token
            let token = tokens.peek().unwrap();
            match &token.value {
                TokenValue::RightParen => break,
                TokenValue::Identifier(key) => {
                    tokens.next();
                    match expect_token_variant(tokens, &TokenValue::Colon) {
                        Ok(_) => {},
                        Err(e) => return Err(e),
                    }
                    let value = match RawValue::from_tokens(tokens) {
                        Ok(v) => v,
                        Err(e) => return Err(e),
                    };
                    if contains_key(&map, key) {
                        let message = concat("Duplicate key ", key.as_str());
                        return Err(ParserError::new(message.as_str(), &location));
                    }
                    let ghost before = map@;
                    map.push((key.clone(), value));
                    proof {
                        lemma_entries_push(before, map@.last());
                        assert(before.push(map@.last()) == map@);
                    }
                },
                _ => break,
            }
            let token = tokens.peek().unwrap();
            match &token.value {
                TokenValue::RightBrace => break,
                TokenValue::Comma => {
                    tokens.next();
                },
                _ => break,
            }
        }
        match expect_token_variant(tokens, &TokenValue::RightBrace) {
            Ok(_) => {},
            Err(e) => return Err(e),
        }
        Ok(RawValueMap { location, map })
    }
}

impl RawValueArray {
    /// Array := '[' Items ']'
    /// Items := ɸ | RawValue (',' Items)* ','?
    pub fn from_tokens(tokens: &mut TokenStream) -> (r: Result<Self, ParserError>)
        requires
            old(tokens).wf(),
        ensures
            final(tokens).spec_tokens() == old(tokens).spec_tokens(),
            match r {
                Ok(a) => parse_array(old(tokens).spec_tokens(), old(tokens).spec_pos()) == Ok::<(Seq<RawModel>, int), ErrorSpec>((a@, final(tokens).spec_pos())) && final(tokens).wf() && final(tokens).spec_pos() > old(tokens).spec_pos(),
                Err(e) => parse_array(old(tokens).spec_tokens(), old(tokens).spec_pos()) is Err && parse_array(old(tokens).spec_tokens(), old(tokens).spec_pos())->Err_0 == e@,
            },
        decreases old(tokens).spec_tokens().len() - old(tokens).spec_pos(), 1int,
    {
        let ghost ts = tokens.spec_tokens();
        let ghost i = tokens.spec_pos();
        let mut array: Vec<RawValue> = Vec::new();
        match expect_token_variant(tokens, &TokenValue::LeftBracket) {
            Ok(_) => {},
            Err(e) => return Err(e),
        }
        assert(values_model(array@) =~= Seq::<RawModel>::empty());
        loop
            invariant_except_break
                parse_array(ts, i) == parse_items(ts, tokens.spec_pos(), values_model(array@)),
            invariant
                tokens.wf(),
                tokens.spec_tokens() == ts,
                i == old(tokens).spec_pos(),
                ts == old(tokens).spec_tokens(),
                tokens.spec_pos() > i,
            ensures
                tokens.wf(),
                tokens.spec_tokens() == ts,
                tokens.spec_pos() > i,
                parse_array(ts, i) == close_array(ts, tokens.spec_pos(), values_model(array@)),
            decreases ts.len() - tokens.spec_pos(),
        {
            // We can unwrap safely due to the EOF token
            let token = tokens.peek().unwrap();
            match &token.value {
                TokenValue::RightBracket => break,
                _ => {
                    let value = match RawValue::from_tokens(tokens) {
                        Ok(v) => v,
                        Err(e) => return Err(e),
                    };
                    let ghost before = array@;
                    array.push(value);
                    proof {
                        lemma_values_push(before, array@.last());
                        assert(before.push(array@.last()) == array@);
                    }
                },
            }
            let token = tokens.peek().unwrap();
            match &token.value {
                TokenValue::RightBracket => break,
                TokenValue::Comma => {
                    tokens.next();
                },
                _ => break,
            }
        }
        match expect_token_variant(tokens, &TokenValue::RightBracket) {
            Ok(_) => {},
            Err(e) => return Err(e),
        }
        Ok(RawValueArray { array })
    }
}

/// The index of the first entry from `k` on whose key is `key`, if any.
pub open spec fn key_index(entries: Seq<(Seq<char>, RawModel)>, key: Seq<char>, k: int) -> Option<int>
    decreases entries.len() - k,
{
    if k < 0 || k >= entries.len() {
        None
    } else if entries[k].0 == key {
        Some(k)
    } else {
        key_index(entries, key, k + 1)
    }
}

proof fn lemma_key_index(entries: Seq<(Seq<char>, RawModel)>, key: Seq<char>, k: int)
    requires
        0 <= k,
    ensures
        key_index(entries, key, k) matches Some(i) ==> k <= i < entries.len() && entries[i].0 == key,
        key_index(entries, key, k) is None <==> forall|m: int| k <= m < entries.len() ==> entries[m].0 != key,
    decreases entries.len() - k,
{
    if k < entries.len() && entries[k].0 != key {
        lemma_key_index(entries, key, k + 1);
    }
}

/// The error for a key that a map lacks.
pub open spec fn not_found_error(key: Seq<char>, location: Location) -> ErrorSpec {
    error_at(key + " not found in map"@, location)
}

/// The error for a map value that could not be converted: it names the key
/// and keeps the conversion's message, and its location if it has one.
pub open spec fn conversion_error(key: Seq<char>, e: ErrorSpec, location: Location) -> ErrorSpec {
    ErrorSpec {
        message: "Error converting map value for '"@ + key + "' to expected type: "@ + e.message,
        location: Some(
            match e.location {
                Some(l) => l,
                None => location,
            },
        ),
    }
}

/// What a map access gives once `convert` produced `out` from the value
/// stored under `key`.
pub open spec fn converted<T>(key: Seq<char>, out: Result<T, ParserError>, location: Location, r: Result<T, ParserError>) -> bool {
    match out {
        Ok(t) => r == Ok::<T, ParserError>(t),
        Err(e) => r is Err && r->Err_0@ == conversion_error(key, e@, location),
    }
}

/// The keys that a map lookup remembers: `key` is added unless already there.
pub open spec fn remember_key(used: Seq<Seq<char>>, key: Seq<char>) -> Seq<Seq<char>> {
    if used.contains(key) {
        used
    } else {
        used.push(key)
    }
}

/// Whether map `b` has the location and the keys, in order, of map `a`,
/// and the same values as `a` except possibly at index `i`.
pub open spec fn same_but_value(a: RawValueMap, b: RawValueMap, i: int) -> bool {
    &&& b.location == a.location
    &&& b.map@.len() == a.map@.len()
    &&& forall|k: int|
        0 <= k < a.map@.len() ==> (#[trigger] b.map@[k]).0 == a.map@[k].0 && (k != i ==> b.map@[k].1 == a.map@[k].1)
}

/// Whether map model `b` has the location and the keys, in order, of map
/// model `a`, and the same values as `a` except possibly at index `i`.
pub open spec fn same_keys_but_value(a: MapModel, b: MapModel, i: int) -> bool {
    &&& b.location == a.location
    &&& b.entries.len() == a.entries.len()
    &&& forall|k: int|
        0 <= k < a.entries.len() ==> (#[trigger] b.entries[k]).0 == a.entries[k].0 && (k != i ==> b.entries[k].1 == a.entries[k].1)
}

/// Maps that differ at most in one value have the same keys in the same
/// order, and the same models of the other values.
pub broadcast proof fn lemma_same_but_value(a: RawValueMap, b: RawValueMap, i: int)
    requires
        same_but_value(a, b, i),
    ensures
        #[trigger] same_keys_but_value(a@, b@, i),
{
    lemma_entries_index(a.map@);
    lemma_entries_index(b.map@);
    assert forall|k: int| 0 <= k < a@.entries.len() implies (#[trigger] b@.entries[k]).0 == a@.entries[k].0 && (k != i ==> b@.entries[k].1
        == a@.entries[k].1) by {
        assert(b.map@[k].0 == a.map@[k].0);
    }
}

impl RawValueMap {
    /// The index of the entry whose key is `key`.
    fn find(&self, key: &String) -> (r: Option<usize>)
        ensures
            r matches Some(i) ==> key_index(self@.entries, key@, 0) == Some(i as int),
            r is None ==> key_index(self@.entries, key@, 0) is None,
    {
        proof {
            lemma_entries_index(self.map@);
        }
        let mut k: usize = 0;
        while k < self.map.len()
            invariant
                k <= self.map@.len(),
                entries_model(self.map@).len() == self.map@.len(),
                forall|m: int| 0 <= m < self.map@.len() ==> #[trigger] entries_model(self.map@)[m] == (self.map@[m].0@, raw_model(self.map@[m].1)),
                key_index(self@.entries, key@, 0) == key_index(self@.entries, key@, k as int),
            decreases self.map@.len() - k,
        {
            if self.map[k].0 == *key {
                return Some(k);
            }
            k += 1;
        }
        None
    }

    /// The value stored under `key`, read without converting it.
    pub fn lookup(&self, key: &str) -> (r: Option<&RawValue>)
        ensures
            key_index(self@.entries, key@, 0) is None ==> r is None,
            key_index(self@.entries, key@, 0) matches Some(i) ==> (r matches Some(v) && v@ == self@.entries[i].1),
    {
        let key = key.to_owned();
        match self.find(&key) {
            None => None,
            Some(i) => {
                proof {
                    lemma_entries_index(self.map@);
                    lemma_key_index(self@.entries, key@, 0);
                }
                Some(&self.map[i].1)
            },
        }
    }

    /// Whether the map has an entry for `key`.
    pub fn has(&self, key: &str) -> (r: bool)
        ensures
            r == key_index(self@.entries, key@, 0) is Some,
    {
        let key = key.to_owned();
        self.find(&key).is_some()
    }

    /// Converts the value stored under `key` with `convert`. A missing key
    /// is an error at the map's location; a failed conversion is reported
    /// with the key.
    pub fn get<'a, T, F>(&'a mut self, key: &str, convert: F) -> (r: Result<T, ParserError>) where
        F: FnOnce(&'a mut RawValue) -> Result<T, ParserError>,

        requires
            forall|v: &'a mut RawValue| #[trigger] convert.requires((v,)),
        ensures
            key_index(old(self)@.entries, key@, 0) is None ==> r is Err && r->Err_0@ == not_found_error(key@, old(self).location),
            key_index(old(self)@.entries, key@, 0) matches Some(i) ==> exists|v: &'a mut RawValue, out: Result<T, ParserError>|
                (*v)@ == old(self)@.entries[i].1 && #[trigger] convert.ensures((v,), out) && converted(key@, out, old(self).location, r),
            key_index(old(self)@.entries, key@, 0) is None ==> *final(self) == *old(self),
            key_index(old(self)@.entries, key@, 0) matches Some(i) ==> same_but_value(*old(self), *final(self), i),
            key_index(old(self)@.entries, key@, 0) matches Some(i) ==> same_keys_but_value(old(self)@, final(self)@, i),
    {
        broadcast use lemma_same_but_value;

        let location = self.location;
        let key = key.to_owned();
        match self.find(&key) {
            None => {
                let message = concat(key.as_str(), " not found in map");
                Err(ParserError::new(message.as_str(), &location))
            },
            Some(i) => {
                proof {
                    lemma_entries_index(self.map@);
                    lemma_key_index(self@.entries, key@, 0);
                }
                let v = &mut self.map[i].1;
                let out = convert(v);
                match out {
                    Ok(t) => Ok(t),
                    Err(e) => Err(conversion_failure(&key, e, &location)),
                }
            },
        }
    }

    /// Like `get`, but a missing key gives `default`.
    pub fn get_or<'a, T, F>(&'a mut self, key: &str, default: T, convert: F) -> (r: Result<T, ParserError>) where
        F: FnOnce(&'a mut RawValue) -> Result<T, ParserError>,

        requires
            forall|v: &'a mut RawValue| #[trigger] convert.requires((v,)),
        ensures
            key_index(old(self)@.entries, key@, 0) is None ==> r == Ok::<T, ParserError>(default),
            key_index(old(self)@.entries, key@, 0) matches Some(i) ==> exists|v: &'a mut RawValue, out: Result<T, ParserError>|
                (*v)@ == old(self)@.entries[i].1 && #[trigger] convert.ensures((v,), out) && converted(key@, out, old(self).location, r),
            key_index(old(self)@.entries, key@, 0) is None ==> *final(self) == *old(self),
            key_index(old(self)@.entries, key@, 0) matches Some(i) ==> same_but_value(*old(self), *final(self), i),
            key_index(old(self)@.entries, key@, 0) matches Some(i) ==> same_keys_but_value(old(self)@, final(self)@, i),
    {
        broadcast use lemma_same_but_value;

        let location = self.location;
        let key = key.to_owned();
        match self.find(&key) {
            None => Ok(default),
            Some(i) => {
                proof {
                    lemma_entries_index(self.map@);
                    lemma_key_index(self@.entries, key@, 0);
                }
                let v = &mut self.map[i].1;
                let out = convert(v);
                match out {
                    Ok(t) => Ok(t),
                    Err(e) => Err(conversion_failure(&key, e, &location)),
                }
            },
        }
    }
}

impl RawValueMap {
    /// The keys of the map that are not in `asked`, in the map's order.
    pub fn keys_not_in(&self, asked: &Vec<String>) -> (r: Vec<String>)
        ensures
            strings_model(r@) == unused_keys_of(self@.entries, strings_model(asked@), self@.entries.len() as int),
    {
        proof {
            lemma_entries_index(self.map@);
        }
        let mut r: Vec<String> = Vec::new();
        let mut k: usize = 0;
        assert(strings_model(r@) =~= Seq::<Seq<char>>::empty());
        while k < self.map.len()
            invariant
                k <= self.map@.len(),
                entries_model(self.map@).len() == self.map@.len(),
                forall|m: int| 0 <= m < self.map@.len() ==> #[trigger] entries_model(self.map@)[m] == (self.map@[m].0@, raw_model(self.map@[m].1)),
                strings_model(r@) == unused_keys_of(self@.entries, strings_model(asked@), k as int),
            decreases self.map@.len() - k,
        {
            let key = &self.map[k].0;
            if !contains_string(asked, key) {
                let ghost before = r@;
                r.push(key.clone());
                assert(strings_model(r@) =~= strings_model(before).push(key@));
            }
            k += 1;
        }
        r
    }
}

/// Reports that the value under `key` could not be converted.
pub(crate) fn conversion_failure(key: &String, e: ParserError, location: &Location) -> (r: ParserError)
    ensures
        r@ == conversion_error(key@, e@, *location),
{
    let message = concat(
        concat(
            concat("Error converting map value for '", key.as_str()).as_str(),
            "' to expected type: ",
        ).as_str(),
        e.message.as_str(),
    );
    let at = match e.location {
        Some(l) => l,
        None => *location,
    };
    ParserError::new(message.as_str(), &at)
}

/// The keys among the first `n` entries that are not in `used`, in order.
pub open spec fn unused_keys_of(entries: Seq<(Seq<char>, RawModel)>, used: Seq<Seq<char>>, n: int) -> Seq<Seq<char>>
    decreases n,
{
    if n <= 0 || n > entries.len() {
        Seq::empty()
    } else if used.contains(entries[n - 1].0) {
        unused_keys_of(entries, used, n - 1)
    } else {
        unused_keys_of(entries, used, n - 1).push(entries[n - 1].0)
    }
}

/// Whether `s` holds `t`.
fn contains_string(s: &Vec<String>, t: &String) -> (r: bool)
    ensures
        r == strings_model(s@).contains(t@),
{
    let mut k: usize = 0;
    while k < s.len()
        invariant
            k <= s@.len(),
            forall|m: int| 0 <= m < k ==> s@[m]@ != t@,
        decreases s@.len() - k,
    {
        if s[k] == *t {
            assert(strings_model(s@)[k as int] == t@);
            return true;
        }
        k += 1;
    }
    proof {
        if strings_model(s@).contains(t@) {
            let m = choose|m: int| 0 <= m < strings_model(s@).len() && strings_model(s@)[m] == t@;
            assert(s@[m]@ == t@);
        }
    }
    false
}

impl TypedRawValueMap {
    /// The type name of the map.
    pub closed spec fn spec_name(&self) -> Seq<char> {
        self.name@
    }

    /// The entries of the map.
    pub closed spec fn spec_map(&self) -> MapModel {
        self.map@
    }

    /// The keys asked for so far.
    pub closed spec fn spec_used_keys(&self) -> Seq<Seq<char>> {
        strings_model(self.used_keys@)
    }

    pub fn new(name: String, map: RawValueMap) -> (t: Self)
        ensures
            t.spec_name() == name@,
            t.spec_map() == map@,
            t.spec_used_keys() == Seq::<Seq<char>>::empty(),
    {
        let t = TypedRawValueMap { name, map, used_keys: Vec::new() };
        assert(strings_model(t.used_keys@) =~= Seq::<Seq<char>>::empty());
        t
    }

    /// Records that `key` was asked for.
    fn remember(&mut self, key: &str)
        ensures
            final(self).spec_used_keys() == remember_key(old(self).spec_used_keys(), key@),
            final(self).spec_map() == old(self).spec_map(),
            final(self).name == old(self).name,
            final(self).map == old(self).map,
    {
        let key = key.to_owned();
        if !contains_string(&self.used_keys, &key) {
            let ghost before = self.used_keys@;
            self.used_keys.push(key);
            assert(strings_model(self.used_keys@) =~= strings_model(before).push(key@));
        }
    }

    /// Whether the map has an entry for `key`; records the key as used.
    pub fn has(&mut self, key: &str) -> (r: bool)
        ensures
            r == key_index(old(self).spec_map().entries, key@, 0) is Some,
            final(self).spec_used_keys() == remember_key(old(self).spec_used_keys(), key@),
            final(self).spec_map() == old(self).spec_map(),
            final(self).spec_name() == old(self).spec_name(),
    {
        self.remember(key);
        self.map.has(key)
    }

    /// Converts the value stored under `key` with `convert`, as
    /// `RawValueMap::get` does; records the key as used.
    pub fn get<'a, T, F>(&'a mut self, key: &str, convert: F) -> (r: Result<T, ParserError>) where
        F: FnOnce(&'a mut RawValue) -> Result<T, ParserError>,

        requires
            forall|v: &'a mut RawValue| #[trigger] convert.requires((v,)),
        ensures
            final(self).spec_used_keys() == remember_key(old(self).spec_used_keys(), key@),
            key_index(old(self).spec_map().entries, key@, 0) is None ==> r is Err && r->Err_0@ == not_found_error(key@, old(self).spec_map().location),
            key_index(old(self).spec_map().entries, key@, 0) matches Some(i) ==> exists|v: &'a mut RawValue, out: Result<T, ParserError>|
                (*v)@ == old(self).spec_map().entries[i].1 && #[trigger] convert.ensures((v,), out) && converted(key@, out, old(self).spec_map().location, r),
            final(self).spec_name() == old(self).spec_name(),
            key_index(old(self).spec_map().entries, key@, 0) is None ==> final(self).spec_map() == old(self).spec_map(),
            key_index(old(self).spec_map().entries, key@, 0) matches Some(i) ==> same_keys_but_value(old(self).spec_map(), final(self).spec_map(), i),
    {
        self.remember(key);
        let ghost before = self.map;
        let r = self.map.get(key, convert);
        proof {
            if let Some(i) = key_index(before@.entries, key@, 0) {
                lemma_same_but_value(before, final(self).map, i);
            }
        }
        r
    }

    /// Like `get`, but a missing key gives `default`.
    pub fn get_or<'a, T, F>(&'a mut self, key: &str, default: T, convert: F) -> (r: Result<T, ParserError>) where
        F: FnOnce(&'a mut RawValue) -> Result<T, ParserError>,

        requires
            forall|v: &'a mut RawValue| #[trigger] convert.requires((v,)),
        ensures
            final(self).spec_used_keys() == remember_key(old(self).spec_used_keys(), key@),
            key_index(old(self).spec_map().entries, key@, 0) is None ==> r == Ok::<T, ParserError>(default),
            key_index(old(self).spec_map().entries, key@, 0) matches Some(i) ==> exists|v: &'a mut RawValue, out: Result<T, ParserError>|
                (*v)@ == old(self).spec_map().entries[i].1 && #[trigger] convert.ensures((v,), out) && converted(key@, out, old(self).spec_map().location, r),
            final(self).spec_name() == old(self).spec_name(),
            key_index(old(self).spec_map().entries, key@, 0) is None ==> final(self).spec_map() == old(self).spec_map(),
            key_index(old(self).spec_map().entries, key@, 0) matches Some(i) ==> same_keys_but_value(old(self).spec_map(), final(self).spec_map(), i),
    {
        self.remember(key);
        let ghost before = self.map;
        let r = self.map.get_or(key, default, convert);
        proof {
            if let Some(i) = key_index(before@.entries, key@, 0) {
                lemma_same_but_value(before, final(self).map, i);
            }
        }
        r
    }

    /// The type name of the map.
    pub fn name(&self) -> (n: &String)
        ensures
            n@ == self.spec_name(),
    {
        &self.name
    }

    /// The map itself, without its name and the keys asked for.
    pub closed spec fn spec_raw_map(&self) -> RawValueMap {
        self.map
    }

    /// The map is a part of the typed map, for proofs by recursion.
    pub proof fn lemma_map_is_part(&self)
        ensures
            decreases_to!(*self => self.spec_raw_map()),
            self.spec_raw_map()@ == self.spec_map(),
    {
    }

    /// The entries of the map, without recording any key as used.
    pub fn map(&self) -> (m: &RawValueMap)
        ensures
            m@ == self.spec_map(),
            *m == self.spec_raw_map(),
    {
        &self.map
    }

    /// The keys asked for so far, in the order first asked.
    pub fn used_keys(&self) -> (k: &Vec<String>)
        ensures
            strings_model(k@) == self.spec_used_keys(),
    {
        &self.used_keys
    }

    /// Where the map starts.
    pub fn location(&self) -> (l: &Location)
        ensures
            *l == self.spec_map().location,
    {
        &self.map.location
    }

    /// The keys of the map that were never asked for, in the map's order.
    pub fn unused_keys(&self) -> (r: Vec<String>)
        ensures
            strings_model(r@) == unused_keys_of(self.spec_map().entries, self.spec_used_keys(), self.spec_map().entries.len() as int),
    {
        self.map.keys_not_in(&self.used_keys)
    }
}

/// No key occurs twice among the entries.
pub open spec fn distinct_keys(entries: Seq<(Seq<char>, RawModel)>) -> bool {
    forall|a: int, b: int| 0 <= a < b < entries.len() ==> #[trigger] entries[a].0 != #[trigger] entries[b].0
}

proof fn lemma_entries_distinct(ts: Seq<TokenSpec>, j: int, location: Location, entries: Seq<(Seq<char>, RawModel)>)
    requires
        distinct_keys(entries),
    ensures
        parse_entries(ts, j, location, entries) matches Ok((m, _)) ==> distinct_keys(m.entries),
    decreases ts.len() - j,
{
    if 0 <= j < ts.len() {
        if let TokenModel::Identifier(key) = ts[j].value {
            if let Ok((_, j2)) = expect_variant(ts, j + 1, TokenModel::Colon) {
                if j2 > j {
                    if let Ok((v, k)) = parse_value(ts, j2) {
                        if !has_key(entries, key) && k > j && k < ts.len() {
                            let e2 = entries.push((key, v));
                            assert forall|a: int, b: int| 0 <= a < b < e2.len() implies #[trigger] e2[a].0 != #[trigger] e2[b].0 by {
                                if b == entries.len() {
                                    assert(entries[a].0 != key);
                                } else {
                                    assert(e2[a] == entries[a] && e2[b] == entries[b]);
                                }
                            }
                            if ts[k].value is Comma {
                                lemma_entries_distinct(ts, k + 1, location, e2);
                            }
                        }
                    }
                }
            }
        }
    }
}

/// A map read from a scene file never holds a key twice: a repeated key is
/// reported as an error instead.
pub proof fn lemma_parsed_map_keys_distinct(ts: Seq<TokenSpec>, i: int)
    ensures
        parse_map(ts, i) matches Ok((m, _)) ==> distinct_keys(m.entries),
{
    if let Ok((start, i1)) = expect_variant(ts, i, TokenModel::LeftBrace) {
        if i1 > i {
            lemma_entries_distinct(ts, i1, start.location, Seq::empty());
        }
    }
}

/// A key that was asked for is never reported as unused, and every other
/// key of the map is.
pub proof fn lemma_unused_keys(entries: Seq<(Seq<char>, RawModel)>, used: Seq<Seq<char>>, n: int, key: Seq<char>)
    requires
        0 <= n <= entries.len(),
    ensures
        unused_keys_of(entries, used, n).contains(key) <==> (!used.contains(key) && exists|k: int| 0 <= k < n && #[trigger] entries[k].0 == key),
    decreases n,
{
    if n > 0 {
        lemma_unused_keys(entries, used, n - 1, key);
        let prev = unused_keys_of(entries, used, n - 1);
        if !used.contains(entries[n - 1].0) {
            assert(prev.push(entries[n - 1].0).contains(key) <==> (prev.contains(key) || entries[n - 1].0 == key)) by {
                if prev.push(entries[n - 1].0).contains(key) {
                    let pp = prev.push(entries[n - 1].0);
                    let m = choose|m: int| 0 <= m < pp.len() && #[trigger] pp[m] == key;
                    if m < prev.len() {
                        assert(prev[m] == key);
                    }
                }
                if prev.contains(key) {
                    let m = choose|m: int| 0 <= m < prev.len() && #[trigger] prev[m] == key;
                    assert(prev.push(entries[n - 1].0)[m] == key);
                }
                if entries[n - 1].0 == key {
                    assert(prev.push(entries[n - 1].0)[prev.len() as int] == key);
                }
            }
        }
        if exists|k: int| 0 <= k < n && #[trigger] entries[k].0 == key {
            let k = choose|k: int| 0 <= k < n && #[trigger] entries[k].0 == key;
            if k < n - 1 {
                assert(exists|k2: int| 0 <= k2 < n - 1 && #[trigger] entries[k2].0 == key);
            }
        }
    }
}

/// Whether two values are equal: numbers compare as `same_number` says,
/// strings by their characters; two maps are equal when they start at the
/// same place and hold the same keys with equal values, in whatever order;
/// arrays compare item by item; a typed map also compares its name and the
/// set of keys asked for.
pub open spec fn raw_equiv(a: RawModel, b: RawModel) -> bool
    decreases a,
{
    match a {
        RawModel::Mapping(ma) => match b {
            RawModel::Mapping(mb) => map_equiv(ma, mb),
            _ => false,
        },
        RawModel::TypedMap(na, ma, ua) => match b {
            RawModel::TypedMap(nb, mb, ub) => na == nb && map_equiv(ma, mb) && ua.to_set() == ub.to_set(),
            _ => false,
        },
        RawModel::Array(xs) => match b {
            RawModel::Array(ys) => array_equiv(xs, ys),
            _ => false,
        },
        RawModel::Number(x) => match b {
            RawModel::Number(y) => same_number(x, y),
            _ => false,
        },
        RawModel::Vector(x1, x2, x3) => match b {
            RawModel::Vector(y1, y2, y3) => same_number(x1, y1) && same_number(x2, y2) && same_number(x3, y3),
            _ => false,
        },
        RawModel::Point(x1, x2, x3) => match b {
            RawModel::Point(y1, y2, y3) => same_number(x1, y1) && same_number(x2, y2) && same_number(x3, y3),
            _ => false,
        },
        RawModel::Color(x1, x2, x3) => match b {
            RawModel::Color(y1, y2, y3) => same_number(x1, y1) && same_number(x2, y2) && same_number(x3, y3),
            _ => false,
        },
        _ => a == b,
    }
}

/// Whether two lists of values have the same length and equal items.
pub open spec fn array_equiv(xs: Seq<RawModel>, ys: Seq<RawModel>) -> bool
    decreases xs,
{
    &&& xs.len() == ys.len()
    &&& forall|k: int| 0 <= k < xs.len() ==> raw_equiv(#[trigger] xs[k], ys[k])
}

/// Whether two maps start at the same place, and each key of either is a key
/// of the other with an equal value (the value of its first entry).
pub open spec fn map_equiv(a: MapModel, b: MapModel) -> bool
    decreases a,
{
    &&& a.location == b.location
    &&& forall|k: int|
        0 <= k < a.entries.len() ==> match key_index(b.entries, #[trigger] a.entries[k].0, 0) {
            Some(j) => raw_equiv(a.entries[k].1, b.entries[j].1),
            None => false,
        }
    &&& forall|k: int|
        0 <= k < b.entries.len() ==> match key_index(a.entries, #[trigger] b.entries[k].0, 0) {
            Some(i) => 0 <= i < a.entries.len() && raw_equiv(a.entries[i].1, b.entries[k].1),
            None => false,
        }
}

/// Whether `a` and `b` hold the same strings, each however often.
fn same_strings(a: &Vec<String>, b: &Vec<String>) -> (r: bool)
    ensures
        r == (strings_model(a@).to_set() == strings_model(b@).to_set()),
{
    let ghost sa = strings_model(a@);
    let ghost sb = strings_model(b@);
    let mut k: usize = 0;
    while k < a.len()
        invariant
            k <= a@.len(),
            sa == strings_model(a@),
            sb == strings_model(b@),
            forall|m: int| 0 <= m < k ==> sb.contains(#[trigger] sa[m]),
        decreases a@.len() - k,
    {
        if !contains_string(b, &a[k]) {
            assert(sa[k as int] == a@[k as int]@);
            assert(sa.to_set().contains(sa[k as int]));
            return false;
        }
        k += 1;
    }
    let mut k: usize = 0;
    while k < b.len()
        invariant
            k <= b@.len(),
            sa == strings_model(a@),
            sb == strings_model(b@),
            forall|m: int| 0 <= m < a@.len() ==> sb.contains(#[trigger] sa[m]),
            forall|m: int| 0 <= m < k ==> sa.contains(#[trigger] sb[m]),
        decreases b@.len() - k,
    {
        if !contains_string(a, &b[k]) {
            assert(sb[k as int] == b@[k as int]@);
            assert(sb.to_set().contains(sb[k as int]));
            return false;
        }
        k += 1;
    }
    assert forall|x: Seq<char>| sa.to_set().contains(x) <==> sb.to_set().contains(x) by {
        if sa.contains(x) {
            let m = choose|m: int| 0 <= m < sa.len() && sa[m] == x;
            assert(sb.contains(sa[m]));
        }
        if sb.contains(x) {
            let m = choose|m: int| 0 <= m < sb.len() && sb[m] == x;
            assert(sa.contains(sb[m]));
        }
    }
    assert(sa.to_set() =~= sb.to_set());
    true
}

/// Whether two values are equal, as `raw_equiv` says.
fn raw_eq(a: &RawValue, b: &RawValue) -> (r: bool)
    ensures
        r == raw_equiv(a@, b@),
    decreases a,
{
    proof {
        lemma_raw_model(*a);
        lemma_raw_model(*b);
    }
    match a {
        RawValue::Number(x) => match b {
            RawValue::Number(y) => numbers_equal(x, y),
            _ => false,
        },
        RawValue::String(x) => match b {
            RawValue::String(y) => *x == *y,
            _ => false,
        },
        RawValue::Vector(x1, x2, x3) => match b {
            RawValue::Vector(y1, y2, y3) => numbers_equal(x1, y1) && numbers_equal(x2, y2) && numbers_equal(x3, y3),
            _ => false,
        },
        RawValue::Point(x1, x2, x3) => match b {
            RawValue::Point(y1, y2, y3) => numbers_equal(x1, y1) && numbers_equal(x2, y2) && numbers_equal(x3, y3),
            _ => false,
        },
        RawValue::Color(x1, x2, x3) => match b {
            RawValue::Color(y1, y2, y3) => numbers_equal(x1, y1) && numbers_equal(x2, y2) && numbers_equal(x3, y3),
            _ => false,
        },
        RawValue::Mapping(m) => match b {
            RawValue::Mapping(n) => map_eq(m, n),
            _ => false,
        },
        RawValue::TypedMap(t) => match b {
            RawValue::TypedMap(u) => t.name == u.name && map_eq(&t.map, &u.map) && same_strings(&t.used_keys, &u.used_keys),
            _ => false,
        },
        RawValue::Array(xs) => match b {
            RawValue::Array(ys) => array_eq(xs, ys),
            _ => false,
        },
    }
}

/// Whether two arrays are equal, as `array_equiv` says.
fn array_eq(a: &RawValueArray, b: &RawValueArray) -> (r: bool)
    ensures
        r == array_equiv(a@, b@),
    decreases a,
{
    proof {
        lemma_array_items(*a);
        lemma_array_items(*b);
    }
    if a.array.len() != b.array.len() {
        return false;
    }
    let mut k: usize = 0;
    while k < a.array.len()
        invariant
            k <= a.array@.len(),
            a.array@.len() == b.array@.len(),
            a@.len() == a.array@.len(),
            b@.len() == b.array@.len(),
            forall|m: int| 0 <= m < a.array@.len() ==> #[trigger] a@[m] == a.array@[m]@,
            forall|m: int| 0 <= m < b.array@.len() ==> #[trigger] b@[m] == b.array@[m]@,
            forall|m: int| 0 <= m < k ==> raw_equiv(#[trigger] a@[m], b@[m]),
        decreases a.array@.len() - k,
    {
        if !raw_eq(&a.array[k], &b.array[k]) {
            assert(a@[k as int] == a.array@[k as int]@);
            return false;
        }
        k += 1;
    }
    true
}

/// Whether two maps are equal, as `map_equiv` says.
fn map_eq(a: &RawValueMap, b: &RawValueMap) -> (r: bool)
    ensures
        r == map_equiv(a@, b@),
    decreases a,
{
    if a.location.line != b.location.line || a.location.column != b.location.column {
        return false;
    }
    proof {
        lemma_map_entries(*a);
        lemma_map_entries(*b);
    }
    let mut k: usize = 0;
    while k < a.map.len()
        invariant
            k <= a.map@.len(),
            a.location == b.location,
            a@.entries.len() == a.map@.len(),
            b@.entries.len() == b.map@.len(),
            forall|m: int| 0 <= m < a.map@.len() ==> #[trigger] a@.entries[m] == (a.map@[m].0@, a.map@[m].1@),
            forall|m: int| 0 <= m < b.map@.len() ==> #[trigger] b@.entries[m] == (b.map@[m].0@, b.map@[m].1@),
            forall|m: int|
                0 <= m < k ==> match key_index(b@.entries, #[trigger] a@.entries[m].0, 0) {
                    Some(j) => raw_equiv(a@.entries[m].1, b@.entries[j].1),
                    None => false,
                },
        decreases a.map@.len() - k,
    {
        let key = &a.map[k].0;
        assert(a@.entries[k as int].0 == key@);
        match b.find(key) {
            None => {
                return false;
            },
            Some(j) => {
                proof {
                    lemma_key_index(b@.entries, key@, 0);
                }
                if !raw_eq(&a.map[k].1, &b.map[j].1) {
                    return false;
                }
            },
        }
        k += 1;
    }
    let mut k: usize = 0;
    while k < b.map.len()
        invariant
            k <= b.map@.len(),
            a.location == b.location,
            a@.entries.len() == a.map@.len(),
            b@.entries.len() == b.map@.len(),
            forall|m: int| 0 <= m < a.map@.len() ==> #[trigger] a@.entries[m] == (a.map@[m].0@, a.map@[m].1@),
            forall|m: int| 0 <= m < b.map@.len() ==> #[trigger] b@.entries[m] == (b.map@[m].0@, b.map@[m].1@),
            forall|m: int|
                0 <= m < a@.entries.len() ==> match key_index(b@.entries, #[trigger] a@.entries[m].0, 0) {
                    Some(j) => raw_equiv(a@.entries[m].1, b@.entries[j].1),
                    None => false,
                },
            forall|m: int|
                0 <= m < k ==> match key_index(a@.entries, #[trigger] b@.entries[m].0, 0) {
                    Some(i) => 0 <= i < a@.entries.len() && raw_equiv(a@.entries[i].1, b@.entries[m].1),
                    None => false,
                },
        decreases b.map@.len() - k,
    {
        let key = &b.map[k].0;
        assert(b@.entries[k as int].0 == key@);
        match a.find(key) {
            None => {
                return false;
            },
            Some(i) => {
                proof {
                    lemma_key_index(a@.entries, key@, 0);
                }
                if !raw_eq(&a.map[i].1, &b.map[k].1) {
                    return false;
                }
            },
        }
        k += 1;
    }
    true
}

impl PartialEq for RawValue {
    fn eq(&self, other: &Self) -> (r: bool) {
        raw_eq(self, other)
    }
}

impl PartialEqSpecImpl for RawValue {
    open spec fn obeys_eq_spec() -> bool {
        true
    }

    open spec fn eq_spec(&self, other: &Self) -> bool {
        raw_equiv(self@, other@)
    }
}

impl PartialEq for RawValueMap {
    fn eq(&self, other: &Self) -> (r: bool) {
        map_eq(self, other)
    }
}

impl PartialEqSpecImpl for RawValueMap {
    open spec fn obeys_eq_spec() -> bool {
        true
    }

    open spec fn eq_spec(&self, other: &Self) -> bool {
        map_equiv(self@, other@)
    }
}

impl PartialEq for TypedRawValueMap {
    fn eq(&self, other: &Self) -> (r: bool) {
        self.name == other.name && map_eq(&self.map, &other.map) && same_strings(&self.used_keys, &other.used_keys)
    }
}

impl PartialEqSpecImpl for TypedRawValueMap {
    open spec fn obeys_eq_spec() -> bool {
        true
    }

    open spec fn eq_spec(&self, other: &Self) -> bool {
        &&& self.spec_name() == other.spec_name()
        &&& map_equiv(self.spec_map(), other.spec_map())
        &&& self.spec_used_keys().to_set() == other.spec_used_keys().to_set()
    }
}

impl PartialEq for RawValueArray {
    fn eq(&self, other: &Self) -> (r: bool) {
        array_eq(self, other)
    }
}

impl PartialEqSpecImpl for RawValueArray {
    open spec fn obeys_eq_spec() -> bool {
        true
    }

    open spec fn eq_spec(&self, other: &Self) -> bool {
        array_equiv(self@, other@)
    }
}

} // verus!
