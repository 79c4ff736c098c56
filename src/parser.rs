//! Parser for the subset of EXPRESS that this library reads: schemas made of
//! entity declarations whose attributes have simple or named types.
//!
//! Each production is stated as a spec function from the text and a start
//! position to what it reads and where it ends (`None` where it rejects), and
//! each parser is proved to compute exactly that.
use crate::ast::{Extensiblity, ParameterType, SimpleType, TypeDecl, UnderlyingType, WidthSpec};
use crate::lexical::{
    at_char, at_ident, at_keyword, char_at, chars_of, ident_at, keyword_at,
    lemma_trivia_end_bounds, lemma_word_end_bounds, skip_spaces, skip_trivia, skip_word,
    spaces_end, string_of, trivia_end, word_end, digits_at, digits_end, digits_value,
    lemma_digits_end_bounds,
};
use vstd::prelude::*;

verus! {

/// An entity declaration: its name and its attributes in order.
#[derive(Debug, PartialEq)]
pub struct Entity {
    pub name: String,
    /// Attribute names with their (not yet resolved) types, and whether
    /// each is `OPTIONAL`.
    pub attributes: Vec<(String, ParameterType, bool)>,
}

/// A schema: its name and its entity declarations in order.
#[derive(Debug, PartialEq)]
pub struct Schema {
    pub name: String,
    pub entities: Vec<Entity>,
}

/// The production that rejected the input.
#[derive(Debug, Clone, Copy, PartialEq, Eq)]
pub enum Production {
    ParameterType,
    ExplicitAttr,
    EntityHead,
    EntityDecl,
    SchemaDecl,
    Schema,
    Parameter,
    SimpleRecord,
    DataSection,
    Exchange,
    TypeDecl,
}

/// A rejected input: the production that rejected it and the character
/// position at which that production was tried.
#[derive(Debug, Clone, Copy, PartialEq, Eq)]
pub struct ParseError {
    pub production: Production,
    pub position: usize,
}

/// A type as written: its word, and the width that follows `STRING` or
/// `BINARY`.
pub type TypeWord = (Seq<char>, Option<WidthSpec>);

/// Names of one `explicit_attr` and their type as written.
pub type AttrGroup = (Seq<Seq<char>>, AttrType);

/// The type of an attribute as written, and whether it is `OPTIONAL`.
pub type AttrType = (TypeWord, bool);

/// An entity as read: its name and its attribute groups.
pub type EntityModel = (Seq<char>, Seq<AttrGroup>);

pub open spec fn kw_optional() -> Seq<char> {
    seq!['O', 'P', 'T', 'I', 'O', 'N', 'A', 'L']
}

pub open spec fn kw_entity() -> Seq<char> {
    seq!['E', 'N', 'T', 'I', 'T', 'Y']
}

pub open spec fn kw_end_entity() -> Seq<char> {
    seq!['E', 'N', 'D', '_', 'E', 'N', 'T', 'I', 'T', 'Y']
}

pub open spec fn kw_schema() -> Seq<char> {
    seq!['S', 'C', 'H', 'E', 'M', 'A']
}

pub open spec fn kw_end_schema() -> Seq<char> {
    seq!['E', 'N', 'D', '_', 'S', 'C', 'H', 'E', 'M', 'A']
}

/// The simple type that a type word names, if it names one.
pub open spec fn simple_type_of(w: Seq<char>) -> Option<SimpleType> {
    if w == seq!['N', 'U', 'M', 'B', 'E', 'R'] {
        Some(SimpleType::Number)
    } else if w == seq!['R', 'E', 'A', 'L'] {
        Some(SimpleType::Real)
    } else if w == seq!['I', 'N', 'T', 'E', 'G', 'E', 'R'] {
        Some(SimpleType::Integer)
    } else if w == seq!['L', 'O', 'G', 'I', 'C', 'A', 'L'] {
        Some(SimpleType::Logical)
    } else if w == seq!['B', 'O', 'O', 'L', 'E', 'A', 'N'] {
        Some(SimpleType::Boolen)
    } else if w == seq!['S', 'T', 'R', 'I', 'N', 'G'] {
        Some(SimpleType::String_ { width_spec: None })
    } else if w == seq!['B', 'I', 'N', 'A', 'R', 'Y'] {
        Some(SimpleType::Binary { width_spec: None })
    } else {
        None
    }
}

/// The simple type `st` with the width `w`, where it takes one.
pub open spec fn with_width(st: SimpleType, w: Option<WidthSpec>) -> SimpleType {
    match st {
        SimpleType::String_ { .. } => SimpleType::String_ { width_spec: w },
        SimpleType::Binary { .. } => SimpleType::Binary { width_spec: w },
        _ => st,
    }
}

/// `t` is the parameter type that `w` denotes: a simple type where the word
/// is one of their keywords, else a reference to the type named by it.
pub open spec fn is_type_word(t: ParameterType, w: TypeWord) -> bool {
    match simple_type_of(w.0) {
        Some(st) => t == ParameterType::Simple(with_width(st, w.1)),
        None => t is Named && t->Named_0@ == w.0,
    }
}

pub open spec fn names_match(v: Seq<String>, ws: Seq<Seq<char>>) -> bool {
    v.len() == ws.len() && forall|k: int| 0 <= k < v.len() ==> #[trigger] v[k]@ == ws[k]
}

/// Attributes with a name and a type word each, one per name of each group,
/// in order.
pub open spec fn expand(groups: Seq<AttrGroup>) -> Seq<(Seq<char>, AttrType)>
    decreases groups.len(),
{
    if groups.len() == 0 {
        seq![]
    } else {
        expand(groups.drop_last()) + expand_one(groups.last())
    }
}

pub open spec fn expand_one(g: AttrGroup) -> Seq<(Seq<char>, AttrType)> {
    g.0.map_values(|n: Seq<char>| (n, g.1))
}

pub open spec fn attrs_match(a: Seq<(String, ParameterType, bool)>, x: Seq<(Seq<char>, AttrType)>) -> bool {
    a.len() == x.len() && forall|k: int|
        0 <= k < a.len() ==> #[trigger] a[k].0@ == x[k].0 && is_type_word(a[k].1, x[k].1.0) && a[k].2 == x[k].1.1
}

/// `e` is the entity that the model `m` describes, attribute lists expanded.
pub open spec fn entity_matches(e: Entity, m: EntityModel) -> bool {
    e.name@ == m.0 && attrs_match(e.attributes@, expand(m.1))
}

pub open spec fn entities_match(v: Seq<Entity>, ms: Seq<EntityModel>) -> bool {
    v.len() == ms.len() && forall|k: int| 0 <= k < v.len() ==> #[trigger] entity_matches(v[k], ms[k])
}

/// `parameter_type`: a word, read as a simple type or a type name.
pub open spec fn param_word(s: Seq<char>, i: int) -> Option<(Seq<char>, int)> {
    if ident_at(s, i) {
        Some((s.subrange(i, word_end(s, i)), word_end(s, i)))
    } else {
        None
    }
}

pub open spec fn kw_fixed() -> Seq<char> {
    seq!['F', 'I', 'X', 'E', 'D']
}

/// `width_spec = '(' digits ')' [ FIXED ]` after position `e`: `Some(None)`
/// where no `(` follows, `None` where one follows but the rest does not.
pub open spec fn width_of(s: Seq<char>, e: int) -> Option<Option<(WidthSpec, int)>> {
    let a = trivia_end(s, e);
    if !char_at(s, a, '(') {
        Some(None)
    } else {
        let b = trivia_end(s, a + 1);
        let d = digits_end(s, b);
        let c = trivia_end(s, d);
        if d == b || digits_value(s, b, d) > usize::MAX || !char_at(s, c, ')') {
            None
        } else if keyword_at(s, trivia_end(s, c + 1), kw_fixed()) {
            Some(Some((WidthSpec { width: digits_value(s, b, d) as usize, fixed: true }, trivia_end(s, c + 1) + 5)))
        } else {
            Some(Some((WidthSpec { width: digits_value(s, b, d) as usize, fixed: false }, c + 1)))
        }
    }
}

/// `parameter_type`, with the width of `STRING` and `BINARY`.
pub open spec fn type_word_of(s: Seq<char>, i: int) -> Option<(TypeWord, int)> {
    match param_word(s, i) {
        None => None,
        Some((w, e)) => if w == seq!['S', 'T', 'R', 'I', 'N', 'G'] || w == seq!['B', 'I', 'N', 'A', 'R', 'Y'] {
            match width_of(s, e) {
                None => None,
                Some(None) => Some(((w, None), e)),
                Some(Some((ws, f))) => Some(((w, Some(ws)), f)),
            }
        } else {
            Some(((w, None), e))
        },
    }
}

/// `id { ',' id }`, remarks and whitespace allowed around each part; the
/// list ends after its last identifier.
pub open spec fn id_list(s: Seq<char>, i: int) -> Option<(Seq<Seq<char>>, int)>
    decreases s.len() - i,
{
    if 0 <= i <= s.len() && ident_at(s, trivia_end(s, i)) {
        let j = trivia_end(s, i);
        let e = word_end(s, j);
        let k = trivia_end(s, e);
        if char_at(s, k, ',') {
            proof {
                lemma_trivia_end_bounds(s, i);
                lemma_word_end_bounds(s, j);
                lemma_trivia_end_bounds(s, e);
            }
            match id_list(s, k + 1) {
                Some((rest, f)) => Some((seq![s.subrange(j, e)] + rest, f)),
                None => None,
            }
        } else {
            Some((seq![s.subrange(j, e)], e))
        }
    } else {
        None
    }
}

/// `explicit_attr = id { ',' id } ':' [ OPTIONAL ] parameter_type ';'`.
pub open spec fn explicit_attr_of(s: Seq<char>, i: int) -> Option<(Seq<Seq<char>>, AttrType, int)> {
    match id_list(s, i) {
        Some((names, e)) => {
            let a = trivia_end(s, e);
            let b = trivia_end(s, a + 1);
            let opt = keyword_at(s, b, kw_optional());
            let b2 = if opt { trivia_end(s, b + 8) } else { b };
            if char_at(s, a, ':') {
                match type_word_of(s, b2) {
                    Some((w, c)) => if char_at(s, trivia_end(s, c), ';') {
                        Some((names, (w, opt), trivia_end(s, c) + 1))
                    } else {
                        None
                    },
                    None => None,
                }
            } else {
                None
            }
        },
        None => None,
    }
}

/// Explicit attributes, each after optional remarks and whitespace; ends
/// after the trivia that follows the last one.
pub open spec fn attr_groups(s: Seq<char>, i: int) -> (Seq<AttrGroup>, int)
    decreases s.len() - i,
{
    if 0 <= i <= s.len() {
        let j = trivia_end(s, i);
        match explicit_attr_of(s, j) {
            Some((names, w, e)) => {
                proof {
                    lemma_trivia_end_bounds(s, i);
                    lemma_explicit_attr_bounds(s, j);
                }
                let (rest, f) = attr_groups(s, e);
                (seq![(names, w)] + rest, f)
            },
            None => (seq![], j),
        }
    } else {
        (seq![], i)
    }
}

/// `entity_head = ENTITY id ';'`, with whitespace after `ENTITY`.
pub open spec fn entity_head_of(s: Seq<char>, i: int) -> Option<(Seq<char>, int)> {
    if keyword_at(s, i, kw_entity()) && spaces_end(s, i + 6) > i + 6 && ident_at(s, spaces_end(s, i + 6)) {
        let j = spaces_end(s, i + 6);
        let e = word_end(s, j);
        if char_at(s, trivia_end(s, e), ';') {
            Some((s.subrange(j, e), trivia_end(s, e) + 1))
        } else {
            None
        }
    } else {
        None
    }
}

/// `entity_decl = entity_head { explicit_attr } END_ENTITY ';'`.
pub open spec fn entity_decl_of(s: Seq<char>, i: int) -> Option<(EntityModel, int)> {
    match entity_head_of(s, i) {
        Some((name, h)) => {
            let (groups, g) = attr_groups(s, h);
            if keyword_at(s, g, kw_end_entity()) && char_at(s, trivia_end(s, g + 10), ';') {
                Some(((name, groups), trivia_end(s, g + 10) + 1))
            } else {
                None
            }
        },
        None => None,
    }
}

/// Entity declarations, each after optional remarks and whitespace; ends
/// after the trivia that follows the last one.
pub open spec fn entity_list(s: Seq<char>, i: int) -> (Seq<EntityModel>, int)
    decreases s.len() - i,
{
    if 0 <= i <= s.len() {
        let j = trivia_end(s, i);
        match entity_decl_of(s, j) {
            Some((m, e)) => {
                proof {
                    lemma_trivia_end_bounds(s, i);
                    lemma_entity_decl_bounds(s, j);
                }
                let (rest, f) = entity_list(s, e);
                (seq![m] + rest, f)
            },
            None => (seq![], j),
        }
    } else {
        (seq![], i)
    }
}

/// `SCHEMA id ';'`, with whitespace or remarks after `SCHEMA`.
pub open spec fn schema_decl_of(s: Seq<char>, i: int) -> Option<(Seq<char>, int)> {
    if keyword_at(s, i, kw_schema()) && trivia_end(s, i + 6) > i + 6 && ident_at(s, trivia_end(s, i + 6)) {
        let j = trivia_end(s, i + 6);
        let e = word_end(s, j);
        if char_at(s, trivia_end(s, e), ';') {
            Some((s.subrange(j, e), trivia_end(s, e) + 1))
        } else {
            None
        }
    } else {
        None
    }
}

/// `schema = SCHEMA id ';' { entity_decl } END_SCHEMA ';'`.
pub open spec fn schema_of(s: Seq<char>, i: int) -> Option<((Seq<char>, Seq<EntityModel>), int)> {
    match schema_decl_of(s, i) {
        Some((name, a)) => {
            let (ents, b) = entity_list(s, a);
            if keyword_at(s, b, kw_end_schema()) && char_at(s, trivia_end(s, b + 10), ';') {
                Some(((name, ents), trivia_end(s, b + 10) + 1))
            } else {
                None
            }
        },
        None => None,
    }
}

pub proof fn lemma_id_list_bounds(s: Seq<char>, i: int)
    requires
        0 <= i <= s.len(),
    ensures
        id_list(s, i) matches Some((ws, f)) ==> i < f <= s.len() && ws.len() >= 1,
    decreases s.len() - i,
{
    lemma_trivia_end_bounds(s, i);
    let j = trivia_end(s, i);
    if ident_at(s, j) {
        lemma_word_end_bounds(s, j + 1);
        let e = word_end(s, j);
        lemma_trivia_end_bounds(s, e);
        let k = trivia_end(s, e);
        if char_at(s, k, ',') {
            lemma_id_list_bounds(s, k + 1);
        }
    }
}

pub proof fn lemma_explicit_attr_bounds(s: Seq<char>, i: int)
    requires
        0 <= i <= s.len(),
    ensures
        explicit_attr_of(s, i) matches Some((ns, w, e)) ==> i < e <= s.len(),
{
    lemma_id_list_bounds(s, i);
    if let Some((names, e)) = id_list(s, i) {
        lemma_trivia_end_bounds(s, e);
        let a = trivia_end(s, e);
        if char_at(s, a, ':') {
            lemma_trivia_end_bounds(s, a + 1);
            let b = trivia_end(s, a + 1);
            lemma_word_end_bounds(s, b);
            let b2 = if keyword_at(s, b, kw_optional()) {
                lemma_trivia_end_bounds(s, b + 8);
                trivia_end(s, b + 8)
            } else {
                b
            };
            lemma_type_word_bounds(s, b2);
            if let Some((w, c)) = type_word_of(s, b2) {
                lemma_trivia_end_bounds(s, c);
            }
        }
    }
}

pub proof fn lemma_type_word_bounds(s: Seq<char>, i: int)
    requires
        0 <= i <= s.len(),
    ensures
        type_word_of(s, i) matches Some((w, e)) ==> i < e <= s.len(),
{
    if ident_at(s, i) {
        lemma_word_end_bounds(s, i + 1);
        let e = word_end(s, i);
        lemma_trivia_end_bounds(s, e);
        let a = trivia_end(s, e);
        if char_at(s, a, '(') {
            lemma_trivia_end_bounds(s, a + 1);
            let b = trivia_end(s, a + 1);
            lemma_digits_end_bounds(s, b);
            let d = digits_end(s, b);
            lemma_trivia_end_bounds(s, d);
            let c = trivia_end(s, d);
            if char_at(s, c, ')') {
                lemma_trivia_end_bounds(s, c + 1);
                lemma_word_end_bounds(s, trivia_end(s, c + 1));
            }
        }
    }
}


pub proof fn lemma_attr_groups_bounds(s: Seq<char>, i: int)
    requires
        0 <= i <= s.len(),
    ensures
        i <= attr_groups(s, i).1 <= s.len(),
    decreases s.len() - i,
{
    lemma_trivia_end_bounds(s, i);
    let j = trivia_end(s, i);
    lemma_explicit_attr_bounds(s, j);
    if let Some((names, w, e)) = explicit_attr_of(s, j) {
        lemma_attr_groups_bounds(s, e);
    }
}

pub proof fn lemma_entity_head_bounds(s: Seq<char>, i: int)
    requires
        0 <= i <= s.len(),
    ensures
        entity_head_of(s, i) matches Some((n, e)) ==> i < e <= s.len(),
{
    lemma_word_end_bounds(s, i);
    if keyword_at(s, i, kw_entity()) {
        let j = spaces_end(s, i + 6);
        if ident_at(s, j) {
            lemma_word_end_bounds(s, j);
            lemma_trivia_end_bounds(s, word_end(s, j));
        }
    }
}

pub proof fn lemma_entity_decl_bounds(s: Seq<char>, i: int)
    requires
        0 <= i <= s.len(),
    ensures
        entity_decl_of(s, i) matches Some((m, e)) ==> i < e <= s.len(),
{
    lemma_entity_head_bounds(s, i);
    if let Some((name, h)) = entity_head_of(s, i) {
        lemma_attr_groups_bounds(s, h);
        let g = attr_groups(s, h).1;
        lemma_word_end_bounds(s, g);
        if keyword_at(s, g, kw_end_entity()) {
            lemma_trivia_end_bounds(s, g + 10);
        }
    }
}

pub proof fn lemma_entity_list_bounds(s: Seq<char>, i: int)
    requires
        0 <= i <= s.len(),
    ensures
        i <= entity_list(s, i).1 <= s.len(),
    decreases s.len() - i,
{
    lemma_trivia_end_bounds(s, i);
    let j = trivia_end(s, i);
    lemma_entity_decl_bounds(s, j);
    if let Some((m, e)) = entity_decl_of(s, j) {
        lemma_entity_list_bounds(s, e);
    }
}


fn simple_type_word(s: &[char], i: usize, e: usize) -> (r: Option<SimpleType>)
    requires
        i <= e <= s@.len(),
        e == word_end(s@, i as int),
    ensures
        r == simple_type_of(s@.subrange(i as int, e as int)),
{
    let number = ['N', 'U', 'M', 'B', 'E', 'R'];
    let real_kw = ['R', 'E', 'A', 'L'];
    let integer = ['I', 'N', 'T', 'E', 'G', 'E', 'R'];
    let logical = ['L', 'O', 'G', 'I', 'C', 'A', 'L'];
    let boolean = ['B', 'O', 'O', 'L', 'E', 'A', 'N'];
    let string = ['S', 'T', 'R', 'I', 'N', 'G'];
    let binary = ['B', 'I', 'N', 'A', 'R', 'Y'];
    assert(number@ == seq!['N', 'U', 'M', 'B', 'E', 'R']);
    assert(real_kw@ == seq!['R', 'E', 'A', 'L']);
    assert(integer@ == seq!['I', 'N', 'T', 'E', 'G', 'E', 'R']);
    assert(logical@ == seq!['L', 'O', 'G', 'I', 'C', 'A', 'L']);
    assert(boolean@ == seq!['B', 'O', 'O', 'L', 'E', 'A', 'N']);
    assert(string@ == seq!['S', 'T', 'R', 'I', 'N', 'G']);
    assert(binary@ == seq!['B', 'I', 'N', 'A', 'R', 'Y']);
    if at_keyword(s, i, &number) {
        Some(SimpleType::Number)
    } else if at_keyword(s, i, &real_kw) {
        Some(SimpleType::Real)
    } else if at_keyword(s, i, &integer) {
        Some(SimpleType::Integer)
    } else if at_keyword(s, i, &logical) {
        Some(SimpleType::Logical)
    } else if at_keyword(s, i, &boolean) {
        Some(SimpleType::Boolen)
    } else if at_keyword(s, i, &string) {
        Some(SimpleType::String_ { width_spec: None })
    } else if at_keyword(s, i, &binary) {
        Some(SimpleType::Binary { width_spec: None })
    } else {
        None
    }
}

fn width_at(s: &[char], e: usize) -> (r: Option<Option<(WidthSpec, usize)>>)
    requires
        e <= s@.len(),
    ensures
        match width_of(s@, e as int) {
            None => r is None,
            Some(None) => r == Some(None::<(WidthSpec, usize)>),
            Some(Some((ws, f))) => r matches Some(Some((ws2, f2))) && ws2 == ws && f2 == f,
        },
{
    let a = skip_trivia(s, e);
    if !at_char(s, a, '(') {
        return Some(None);
    }
    let b = skip_trivia(s, a + 1);
    proof {
        lemma_digits_end_bounds(s@, b as int);
        lemma_trivia_end_bounds(s@, digits_end(s@, b as int));
    }
    let (value, d) = match digits_at(s, b) {
        Some(p) => p,
        None => return None,
    };
    if value > usize::MAX as u64 {
        return None;
    }
    let width = value as usize;
    let c = skip_trivia(s, d);
    if !at_char(s, c, ')') {
        return None;
    }
    let g = skip_trivia(s, c + 1);
    let fixed_kw = ['F', 'I', 'X', 'E', 'D'];
    assert(fixed_kw@ == kw_fixed());
    if at_keyword(s, g, &fixed_kw) {
        Some(Some((WidthSpec { width, fixed: true }, g + 5)))
    } else {
        Some(Some((WidthSpec { width, fixed: false }, c + 1)))
    }
}

fn param_type_at(s: &[char], i: usize) -> (r: Option<(ParameterType, usize)>)
    requires
        i <= s@.len(),
    ensures
        match type_word_of(s@, i as int) {
            None => r is None,
            Some((w, e)) => r matches Some((t, f)) && is_type_word(t, w) && f == e,
        },
{
    if !at_ident(s, i) {
        return None;
    }
    proof {
        lemma_word_end_bounds(s@, i as int);
        lemma_type_word_bounds(s@, i as int);
    }
    let e = skip_word(s, i);
    match simple_type_word(s, i, e) {
        Some(SimpleType::String_ { .. }) => match width_at(s, e) {
            None => None,
            Some(None) => Some((ParameterType::Simple(SimpleType::String_ { width_spec: None }), e)),
            Some(Some((ws, f))) => Some((ParameterType::Simple(SimpleType::String_ { width_spec: Some(ws) }), f)),
        },
        Some(SimpleType::Binary { .. }) => match width_at(s, e) {
            None => None,
            Some(None) => Some((ParameterType::Simple(SimpleType::Binary { width_spec: None }), e)),
            Some(Some((ws, f))) => Some((ParameterType::Simple(SimpleType::Binary { width_spec: Some(ws) }), f)),
        },
        Some(st) => Some((ParameterType::Simple(st), e)),
        None => Some((ParameterType::Named(string_of(s, i, e)), e)),
    }
}

fn id_list_at(s: &[char], i: usize) -> (r: Option<(Vec<String>, usize)>)
    requires
        i <= s@.len(),
    ensures
        match id_list(s@, i as int) {
            None => r is None,
            Some((ws, f)) => r matches Some((v, g)) && names_match(v@, ws) && g == f,
        },
    decreases s@.len() - i,
{
    let j = skip_trivia(s, i);
    if !at_ident(s, j) {
        return None;
    }
    proof {
        lemma_word_end_bounds(s@, j as int);
    }
    let e = skip_word(s, j);
    let k = skip_trivia(s, e);
    let name = string_of(s, j, e);
    if at_char(s, k, ',') {
        match id_list_at(s, k + 1) {
            Some((mut rest, f)) => {
                let ghost old_rest = rest@;
                rest.insert(0, name);
                proof {
                    let ws = id_list(s@, (k + 1) as int).unwrap().0;
                    assert(names_match(rest@, seq![s@.subrange(j as int, e as int)] + ws)) by {
                        assert forall|m: int| 0 < m < rest@.len() implies #[trigger] rest@[m]@ == (seq![s@.subrange(j as int, e as int)] + ws)[m] by {
                            assert(rest@[m] == old_rest[m - 1]);
                        }
                    }
                }
                Some((rest, f))
            },
            None => None,
        }
    } else {
        let mut v: Vec<String> = Vec::new();
        v.push(name);
        Some((v, e))
    }
}

fn copy_type_word(t: &ParameterType) -> (r: ParameterType)
    requires
        t is Named || t is Simple,
    ensures
        r == *t,
{
    match t {
        ParameterType::Named(n) => ParameterType::Named(n.clone()),
        ParameterType::Simple(st) => ParameterType::Simple(*st),
        _ => ParameterType::Generic(None),
    }
}

fn explicit_attr_at(s: &[char], i: usize) -> (r: Option<((Vec<String>, ParameterType, bool), usize)>)
    requires
        i <= s@.len(),
    ensures
        match explicit_attr_of(s@, i as int) {
            None => r is None,
            Some((ws, w, e)) => r matches Some(((v, t, o), f)) && names_match(v@, ws)
                && is_type_word(t, w.0) && o == w.1 && f == e,
        },
{
    proof {
        lemma_id_list_bounds(s@, i as int);
    }
    let (names, e) = match id_list_at(s, i) {
        Some(p) => p,
        None => return None,
    };
    let a = skip_trivia(s, e);
    if !at_char(s, a, ':') {
        return None;
    }
    let b = skip_trivia(s, a + 1);
    let optional_kw = ['O', 'P', 'T', 'I', 'O', 'N', 'A', 'L'];
    assert(optional_kw@ == kw_optional());
    proof {
        lemma_word_end_bounds(s@, b as int);
    }
    let optional = at_keyword(s, b, &optional_kw);
    let b2 = if optional { skip_trivia(s, b + 8) } else { b };
    proof {
        lemma_type_word_bounds(s@, b2 as int);
    }
    let (ty, c) = match param_type_at(s, b2) {
        Some(p) => p,
        None => return None,
    };
    let d = skip_trivia(s, c);
    if !at_char(s, d, ';') {
        return None;
    }
    Some(((names, ty, optional), d + 1))
}

pub open spec fn groups_match(v: Seq<(Vec<String>, ParameterType, bool)>, gs: Seq<AttrGroup>) -> bool {
    v.len() == gs.len() && forall|k: int|
        0 <= k < v.len() ==> names_match(#[trigger] v[k].0@, gs[k].0) && is_type_word(v[k].1, gs[k].1.0)
            && v[k].2 == gs[k].1.1
}

fn attr_groups_at(s: &[char], i: usize) -> (r: (Vec<(Vec<String>, ParameterType, bool)>, usize))
    requires
        i <= s@.len(),
    ensures
        groups_match(r.0@, attr_groups(s@, i as int).0),
        r.1 == attr_groups(s@, i as int).1,
    decreases s@.len() - i,
{
    let j = skip_trivia(s, i);
    proof {
        lemma_explicit_attr_bounds(s@, j as int);
    }
    match explicit_attr_at(s, j) {
        Some((group, e)) => {
            let (mut rest, f) = attr_groups_at(s, e);
            let ghost old_rest = rest@;
            let ghost g0 = group;
            rest.insert(0, group);
            proof {
                let gs = attr_groups(s@, i as int).0;
                assert forall|k: int| 0 <= k < rest@.len() implies names_match(#[trigger] rest@[k].0@, gs[k].0)
                    && is_type_word(rest@[k].1, gs[k].1.0) && rest@[k].2 == gs[k].1.1 by {
                    let rs = attr_groups(s@, e as int).0;
                    if k == 0 {
                        assert(rest@[k] == g0);
                    } else {
                        assert(rest@[k] == old_rest[k - 1]);
                        assert(gs[k] == rs[k - 1]);
                        assert(names_match(old_rest[k - 1].0@, rs[k - 1].0));
                    }
                }
            }
            (rest, f)
        },
        None => (Vec::new(), j),
    }
}

proof fn lemma_expand_push(gs: Seq<AttrGroup>, g: AttrGroup)
    ensures
        expand(gs.push(g)) == expand(gs) + expand_one(g),
{
    assert(gs.push(g).drop_last() =~= gs);
}

/// Each attribute of each group, with the group's type, in order.
fn expand_groups(groups: &Vec<(Vec<String>, ParameterType, bool)>, Ghost(gs): Ghost<Seq<AttrGroup>>) -> (r: Vec<(String, ParameterType, bool)>)
    requires
        groups_match(groups@, gs),
    ensures
        attrs_match(r@, expand(gs)),
{
    let mut out: Vec<(String, ParameterType, bool)> = Vec::new();
    let mut g: usize = 0;
    assert(gs.take(0) =~= seq![]);
    while g < groups.len()
        invariant
            groups_match(groups@, gs),
            g <= groups@.len(),
            attrs_match(out@, expand(gs.take(g as int))),
        decreases groups@.len() - g,
    {
        let names = &groups[g].0;
        let ty = &groups[g].1;
        let optional = groups[g].2;
        let ghost before = out@;
        let ghost grp = gs[g as int];
        assert(names_match(groups@[g as int].0@, gs[g as int].0));
        let mut n: usize = 0;
        while n < names.len()
            invariant
                g < groups@.len(),
                names == groups@[g as int].0,
                ty == groups@[g as int].1,
                names_match(names@, grp.0),
                is_type_word(*ty, grp.1.0),
                optional == grp.1.1,
                n <= names@.len(),
                attrs_match(out@, expand(gs.take(g as int)) + expand_one((grp.0.take(n as int), grp.1))),
            decreases names@.len() - n,
        {
            let ghost prev = out@;
            out.push((names[n].clone(), copy_type_word(ty), optional));
            proof {
                let x = expand(gs.take(g as int)) + expand_one((grp.0.take(n as int), grp.1));
                let y = expand(gs.take(g as int)) + expand_one((grp.0.take(n + 1), grp.1));
                assert(y =~= x.push((grp.0[n as int], grp.1)));
                assert(names@[n as int]@ == grp.0[n as int]);
                assert forall|k: int| 0 <= k < out@.len() implies #[trigger] out@[k].0@ == y[k].0 && is_type_word(out@[k].1, y[k].1.0) && out@[k].2 == y[k].1.1 by {
                    if k < prev.len() {
                        assert(out@[k] == prev[k]);
                        assert(prev[k].0@ == x[k].0);
                        assert(y[k] == x[k]);
                    } else {
                        assert(y[k] == (grp.0[n as int], grp.1));
                        assert(out@[k].2 == optional);
                    }
                }
            }
            n += 1;
        }
        proof {
            assert(grp.0.take(n as int) =~= grp.0);
            lemma_expand_push(gs.take(g as int), grp);
            assert(gs.take(g as int).push(grp) =~= gs.take(g + 1));
        }
        g += 1;
    }
    assert(gs.take(g as int) =~= gs);
    out
}

fn entity_head_at(s: &[char], i: usize) -> (r: Option<(String, usize)>)
    requires
        i <= s@.len(),
    ensures
        match entity_head_of(s@, i as int) {
            None => r is None,
            Some((n, e)) => r matches Some((v, f)) && v@ == n && f == e,
        },
{
    let entity_kw = ['E', 'N', 'T', 'I', 'T', 'Y'];
    assert(entity_kw@ == kw_entity());
    proof {
        lemma_word_end_bounds(s@, i as int);
    }
    if !at_keyword(s, i, &entity_kw) {
        return None;
    }
    let j = skip_spaces(s, i + 6);
    if j <= i + 6 || !at_ident(s, j) {
        return None;
    }
    proof {
        lemma_word_end_bounds(s@, j as int);
    }
    let e = skip_word(s, j);
    let k = skip_trivia(s, e);
    if !at_char(s, k, ';') {
        return None;
    }
    Some((string_of(s, j, e), k + 1))
}

fn entity_decl_at(s: &[char], i: usize) -> (r: Option<(Entity, usize)>)
    requires
        i <= s@.len(),
    ensures
        match entity_decl_of(s@, i as int) {
            None => r is None,
            Some((m, e)) => r matches Some((v, f)) && entity_matches(v, m) && f == e,
        },
{
    proof {
        lemma_entity_head_bounds(s@, i as int);
    }
    let (name, h) = match entity_head_at(s, i) {
        Some(p) => p,
        None => return None,
    };
    proof {
        lemma_attr_groups_bounds(s@, h as int);
    }
    let (groups, g) = attr_groups_at(s, h);
    let end_kw = ['E', 'N', 'D', '_', 'E', 'N', 'T', 'I', 'T', 'Y'];
    assert(end_kw@ == kw_end_entity());
    proof {
        lemma_word_end_bounds(s@, g as int);
    }
    if !at_keyword(s, g, &end_kw) {
        return None;
    }
    let k = skip_trivia(s, g + 10);
    if !at_char(s, k, ';') {
        return None;
    }
    let attributes = expand_groups(&groups, Ghost(attr_groups(s@, h as int).0));
    Some((Entity { name, attributes }, k + 1))
}

fn entity_list_at(s: &[char], i: usize) -> (r: (Vec<Entity>, usize))
    requires
        i <= s@.len(),
    ensures
        entities_match(r.0@, entity_list(s@, i as int).0),
        r.1 == entity_list(s@, i as int).1,
    decreases s@.len() - i,
{
    let j = skip_trivia(s, i);
    proof {
        lemma_entity_decl_bounds(s@, j as int);
    }
    match entity_decl_at(s, j) {
        Some((ent, e)) => {
            let (mut rest, f) = entity_list_at(s, e);
            let ghost old_rest = rest@;
            rest.insert(0, ent);
            proof {
                let ms = entity_list(s@, i as int).0;
                assert forall|k: int| 0 < k < rest@.len() implies #[trigger] entity_matches(rest@[k], ms[k]) by {
                    assert(rest@[k] == old_rest[k - 1]);
                }
            }
            (rest, f)
        },
        None => (Vec::new(), j),
    }
}

fn schema_decl_at(s: &[char], i: usize) -> (r: Option<(String, usize)>)
    requires
        i <= s@.len(),
    ensures
        match schema_decl_of(s@, i as int) {
            None => r is None,
            Some((n, e)) => r matches Some((v, f)) && v@ == n && f == e,
        },
{
    let schema_kw = ['S', 'C', 'H', 'E', 'M', 'A'];
    assert(schema_kw@ == kw_schema());
    proof {
        lemma_word_end_bounds(s@, i as int);
    }
    if !at_keyword(s, i, &schema_kw) {
        return None;
    }
    let j = skip_trivia(s, i + 6);
    if j <= i + 6 || !at_ident(s, j) {
        return None;
    }
    proof {
        lemma_word_end_bounds(s@, j as int);
    }
    let e = skip_word(s, j);
    let k = skip_trivia(s, e);
    if !at_char(s, k, ';') {
        return None;
    }
    Some((string_of(s, j, e), k + 1))
}

fn schema_at(s: &[char], i: usize) -> (r: Option<(Schema, usize)>)
    requires
        i <= s@.len(),
    ensures
        match schema_of(s@, i as int) {
            None => r is None,
            Some((m, e)) => r matches Some((v, f)) && v.name@ == m.0
                && entities_match(v.entities@, m.1) && f == e,
        },
{
    let (name, a) = match schema_decl_at(s, i) {
        Some(p) => p,
        None => return None,
    };
    proof {
        lemma_word_end_bounds(s@, i as int);
        lemma_trivia_end_bounds(s@, i + 6);
        lemma_word_end_bounds(s@, trivia_end(s@, i + 6));
        lemma_trivia_end_bounds(s@, word_end(s@, trivia_end(s@, i + 6)));
        lemma_entity_list_bounds(s@, a as int);
    }
    let (entities, b) = entity_list_at(s, a);
    let end_kw = ['E', 'N', 'D', '_', 'S', 'C', 'H', 'E', 'M', 'A'];
    assert(end_kw@ == kw_end_schema());
    proof {
        lemma_word_end_bounds(s@, b as int);
    }
    if !at_keyword(s, b, &end_kw) {
        return None;
    }
    let k = skip_trivia(s, b + 10);
    if !at_char(s, k, ';') {
        return None;
    }
    Some((Schema { name, entities }, k + 1))
}

/// Reads a parameter type at the start of `input`: a simple type keyword,
/// with its width for `STRING` and `BINARY`, or the name of a declared type. Returns it with the number of characters read.
pub fn paramter_type(input: &str) -> (r: Result<(ParameterType, usize), ParseError>)
    ensures
        match type_word_of(input@, 0) {
            None => r matches Err(e) && e.production == Production::ParameterType && e.position == 0,
            Some((w, e)) => r matches Ok((t, n)) && is_type_word(t, w) && n == e,
        },
{
    let s = chars_of(input);
    match param_type_at(s.as_slice(), 0) {
        Some(p) => Ok(p),
        None => Err(ParseError { production: Production::ParameterType, position: 0 }),
    }
}

/// Reads `a, b, .. : [OPTIONAL] T;` at the start of `input`: the attribute
/// names, their common type, whether they are `OPTIONAL`, and the number of
/// characters read.
pub fn explicit_attr(input: &str) -> (r: Result<((Vec<String>, ParameterType, bool), usize), ParseError>)
    ensures
        match explicit_attr_of(input@, 0) {
            None => r matches Err(e) && e.production == Production::ExplicitAttr && e.position == 0,
            Some((ws, w, e)) => r matches Ok(((v, t, o), n)) && names_match(v@, ws) && is_type_word(t, w.0) && o == w.1
                && n == e,
        },
{
    let s = chars_of(input);
    match explicit_attr_at(s.as_slice(), 0) {
        Some(p) => Ok(p),
        None => Err(ParseError { production: Production::ExplicitAttr, position: 0 }),
    }
}

/// Reads `ENTITY name;` at the start of `input`: the name and the number of
/// characters read.
pub fn entity_head(input: &str) -> (r: Result<(String, usize), ParseError>)
    ensures
        match entity_head_of(input@, 0) {
            None => r matches Err(e) && e.production == Production::EntityHead && e.position == 0,
            Some((w, e)) => r matches Ok((v, n)) && v@ == w && n == e,
        },
{
    let s = chars_of(input);
    match entity_head_at(s.as_slice(), 0) {
        Some(p) => Ok(p),
        None => Err(ParseError { production: Production::EntityHead, position: 0 }),
    }
}

/// Reads an entity declaration at the start of `input`, with each comma list
/// of attributes expanded into one attribute per name.
pub fn entity_decl(input: &str) -> (r: Result<(Entity, usize), ParseError>)
    ensures
        match entity_decl_of(input@, 0) {
            None => r matches Err(e) && e.production == Production::EntityDecl && e.position == 0,
            Some((m, e)) => r matches Ok((v, n)) && entity_matches(v, m) && n == e,
        },
{
    let s = chars_of(input);
    match entity_decl_at(s.as_slice(), 0) {
        Some(p) => Ok(p),
        None => Err(ParseError { production: Production::EntityDecl, position: 0 }),
    }
}

/// Reads `SCHEMA name;` at the start of `input`: the name and the number of
/// characters read.
pub fn schema_decl(input: &str) -> (r: Result<(String, usize), ParseError>)
    ensures
        match schema_decl_of(input@, 0) {
            None => r matches Err(e) && e.production == Production::SchemaDecl && e.position == 0,
            Some((w, e)) => r matches Ok((v, n)) && v@ == w && n == e,
        },
{
    let s = chars_of(input);
    match schema_decl_at(s.as_slice(), 0) {
        Some(p) => Ok(p),
        None => Err(ParseError { production: Production::SchemaDecl, position: 0 }),
    }
}

/// Reads the entity declarations that start `input`, with the remarks and
/// whitespace around them; stops before the first text that is not one.
pub fn schema_body(input: &str) -> (r: (Vec<Entity>, usize))
    ensures
        entities_match(r.0@, entity_list(input@, 0).0),
        r.1 == entity_list(input@, 0).1,
{
    let s = chars_of(input);
    entity_list_at(s.as_slice(), 0)
}

/// Reads a schema that makes up all of `input`, but for whitespace and
/// remarks after it: its name and entity declarations, and the number of
/// characters that the schema itself takes. Fails with the position where
/// the schema ended if other text follows.
pub fn schema(input: &str) -> (r: Result<(Schema, usize), ParseError>)
    ensures
        match schema_of(input@, 0) {
            None => r matches Err(e) && e.production == Production::Schema && e.position == 0,
            Some((m, e)) => if trivia_end(input@, e) == input@.len() {
                r matches Ok((v, n)) && v.name@ == m.0 && entities_match(v.entities@, m.1) && n == e
            } else {
                r matches Err(x) && x.production == Production::Schema && x.position == e
            },
        },
{
    let s = chars_of(input);
    match schema_at(s.as_slice(), 0) {
        Some((v, e)) => {
            proof {
                lemma_schema_bounds(s@, 0);
            }
            if skip_trivia(s.as_slice(), e) == s.len() {
                Ok((v, e))
            } else {
                Err(ParseError { production: Production::Schema, position: e })
            }
        },
        None => Err(ParseError { production: Production::Schema, position: 0 }),
    }
}

/// Reads a whole schema text: a schema followed by nothing but whitespace
/// and remarks. Fails with the position where the schema ended if more
/// follows.
pub fn parse_schema(input: &str) -> (r: Result<Schema, ParseError>)
    ensures
        match schema_of(input@, 0) {
            None => r matches Err(e) && e.production == Production::Schema && e.position == 0,
            Some((m, e)) => if trivia_end(input@, e) == input@.len() {
                r matches Ok(v) && v.name@ == m.0 && entities_match(v.entities@, m.1)
            } else {
                r matches Err(x) && x.production == Production::Schema && x.position == e
            },
        },
{
    let s = chars_of(input);
    match schema_at(s.as_slice(), 0) {
        Some((v, e)) => {
            proof {
                lemma_schema_bounds(s@, 0);
            }
            if skip_trivia(s.as_slice(), e) == s.len() {
                Ok(v)
            } else {
                Err(ParseError { production: Production::Schema, position: e })
            }
        },
        None => Err(ParseError { production: Production::Schema, position: 0 }),
    }
}

pub proof fn lemma_schema_bounds(s: Seq<char>, i: int)
    requires
        0 <= i <= s.len(),
    ensures
        schema_of(s, i) matches Some((m, e)) ==> i < e <= s.len(),
{
    lemma_word_end_bounds(s, i);
    if let Some((name, a)) = schema_decl_of(s, i) {
        lemma_trivia_end_bounds(s, i + 6);
        lemma_word_end_bounds(s, trivia_end(s, i + 6));
        lemma_trivia_end_bounds(s, word_end(s, trivia_end(s, i + 6)));
        lemma_entity_list_bounds(s, a);
        let b = entity_list(s, a).1;
        lemma_word_end_bounds(s, b);
        if keyword_at(s, b, kw_end_schema()) {
            lemma_trivia_end_bounds(s, b + 10);
        }
    }
}

/// Attribute expansion: an explicit attribute `a, b, c : T;` stands for one
/// attribute per name, in the order written, each with the type word `T`.
pub proof fn lemma_attribute_expansion(s: Seq<char>, i: int)
    requires
        explicit_attr_of(s, i) is Some,
    ensures
        ({
            let (names, w, e) = explicit_attr_of(s, i)->Some_0;
            &&& expand(seq![(names, w)]).len() == names.len()
            &&& forall|k: int| 0 <= k < names.len() ==> #[trigger] expand(seq![(names, w)])[k] == (names[k], w)
        }),
{
    let (names, w, e) = explicit_attr_of(s, i)->Some_0;
    let g: AttrGroup = (names, w);
    assert(seq![g].drop_last() =~= Seq::<AttrGroup>::empty());
    assert(seq![g].last() == g);
    assert(expand(Seq::<AttrGroup>::empty()) == Seq::<(Seq<char>, AttrType)>::empty());
    assert(expand(seq![g]) == expand(Seq::<AttrGroup>::empty()) + expand_one(g));
    assert(expand(seq![g]) =~= expand_one(g));
}

/// Attributes that come from one type word carry the same type: the same
/// simple type, or references to the same name.
pub proof fn lemma_type_word_unique(t1: ParameterType, t2: ParameterType, w: TypeWord)
    requires
        is_type_word(t1, w),
        is_type_word(t2, w),
    ensures
        t1 is Simple ==> t1 == t2,
        t1 is Named ==> t2 is Named && t1->Named_0@ == t2->Named_0@,
{
}

/// An underlying type as written: a type word, or the names of an
/// enumeration or of a select.
pub enum UnderlyingModel {
    Word(TypeWord),
    Enumeration(Seq<Seq<char>>),
    Select(Seq<Seq<char>>),
}

/// `u` is the underlying type that `m` describes.
pub open spec fn underlying_matches(u: UnderlyingType, m: UnderlyingModel) -> bool {
    match m {
        UnderlyingModel::Word(w) => match simple_type_of(w.0) {
            Some(st) => u == UnderlyingType::Simple(with_width(st, w.1)),
            None => u matches UnderlyingType::Reference(n) && n@ == w.0,
        },
        UnderlyingModel::Enumeration(ids) => u matches UnderlyingType::Enumeration { extensiblity, items }
            && extensiblity == Extensiblity::NonExtensible && names_match(items@, ids),
        UnderlyingModel::Select(ids) => u matches UnderlyingType::Select { extensiblity, types }
            && extensiblity == Extensiblity::NonExtensible && names_match(types@, ids),
    }
}

pub open spec fn kw_type() -> Seq<char> {
    seq!['T', 'Y', 'P', 'E']
}

pub open spec fn kw_end_type() -> Seq<char> {
    seq!['E', 'N', 'D', '_', 'T', 'Y', 'P', 'E']
}

pub open spec fn kw_enumeration() -> Seq<char> {
    seq!['E', 'N', 'U', 'M', 'E', 'R', 'A', 'T', 'I', 'O', 'N']
}

pub open spec fn kw_of() -> Seq<char> {
    seq!['O', 'F']
}

pub open spec fn kw_select() -> Seq<char> {
    seq!['S', 'E', 'L', 'E', 'C', 'T']
}

/// `'(' id { ',' id } ')'` at `p`: the names and the position after `)`.
pub open spec fn name_list_of(s: Seq<char>, p: int) -> Option<(Seq<Seq<char>>, int)> {
    if char_at(s, p, '(') {
        match id_list(s, p + 1) {
            Some((ids, e)) => if char_at(s, trivia_end(s, e), ')') {
                Some((ids, trivia_end(s, e) + 1))
            } else {
                None
            },
            None => None,
        }
    } else {
        None
    }
}

/// `underlying_type`: `ENUMERATION OF (..)`, `SELECT (..)`, or a simple or
/// named type.
pub open spec fn underlying_of(s: Seq<char>, b: int) -> Option<(UnderlyingModel, int)> {
    if keyword_at(s, b, kw_enumeration()) {
        let k = trivia_end(s, b + 11);
        if keyword_at(s, k, kw_of()) {
            match name_list_of(s, trivia_end(s, k + 2)) {
                Some((ids, e)) => Some((UnderlyingModel::Enumeration(ids), e)),
                None => None,
            }
        } else {
            None
        }
    } else if keyword_at(s, b, kw_select()) {
        match name_list_of(s, trivia_end(s, b + 6)) {
            Some((ids, e)) => Some((UnderlyingModel::Select(ids), e)),
            None => None,
        }
    } else {
        match type_word_of(s, b) {
            Some((w, e)) => Some((UnderlyingModel::Word(w), e)),
            None => None,
        }
    }
}

/// `type_decl = TYPE id '=' underlying_type ';' END_TYPE ';'`.
pub open spec fn type_decl_of(s: Seq<char>, i: int) -> Option<((Seq<char>, UnderlyingModel), int)> {
    let j = trivia_end(s, i + 4);
    let e = word_end(s, j);
    let a = trivia_end(s, e);
    if keyword_at(s, i, kw_type()) && j > i + 4 && ident_at(s, j) && char_at(s, a, '=') {
        match underlying_of(s, trivia_end(s, a + 1)) {
            Some((u, c)) => {
                let d = trivia_end(s, c);
                let g = trivia_end(s, d + 1);
                if char_at(s, d, ';') && keyword_at(s, g, kw_end_type()) && char_at(s, trivia_end(s, g + 8), ';') {
                    Some(((s.subrange(j, e), u), trivia_end(s, g + 8) + 1))
                } else {
                    None
                }
            },
            None => None,
        }
    } else {
        None
    }
}

fn name_list_at(s: &[char], p: usize) -> (r: Option<(Vec<String>, usize)>)
    requires
        p <= s@.len(),
    ensures
        match name_list_of(s@, p as int) {
            None => r is None,
            Some((ids, e)) => r matches Some((v, f)) && names_match(v@, ids) && f == e,
        },
        r matches Some((v, f)) ==> f <= s@.len(),
{
    if !at_char(s, p, '(') {
        return None;
    }
    proof {
        lemma_id_list_bounds(s@, p + 1);
    }
    let (ids, e) = match id_list_at(s, p + 1) {
        Some(x) => x,
        None => return None,
    };
    let q = skip_trivia(s, e);
    if !at_char(s, q, ')') {
        return None;
    }
    Some((ids, q + 1))
}

fn underlying_at(s: &[char], b: usize) -> (r: Option<(UnderlyingType, usize)>)
    requires
        b <= s@.len(),
    ensures
        match underlying_of(s@, b as int) {
            None => r is None,
            Some((m, e)) => r matches Some((u, f)) && underlying_matches(u, m) && f == e,
        },
        r matches Some((u, f)) ==> f <= s@.len(),
{
    let enumeration_kw = ['E', 'N', 'U', 'M', 'E', 'R', 'A', 'T', 'I', 'O', 'N'];
    let of_kw = ['O', 'F'];
    let select_kw = ['S', 'E', 'L', 'E', 'C', 'T'];
    assert(enumeration_kw@ == kw_enumeration());
    assert(of_kw@ == kw_of());
    assert(select_kw@ == kw_select());
    proof {
        lemma_word_end_bounds(s@, b as int);
        lemma_type_word_bounds(s@, b as int);
    }
    if at_keyword(s, b, &enumeration_kw) {
        let k = skip_trivia(s, b + 11);
        proof {
            lemma_word_end_bounds(s@, k as int);
        }
        if !at_keyword(s, k, &of_kw) {
            return None;
        }
        let p = skip_trivia(s, k + 2);
        match name_list_at(s, p) {
            Some((items, e)) => Some((UnderlyingType::Enumeration { extensiblity: Extensiblity::NonExtensible, items }, e)),
            None => None,
        }
    } else if at_keyword(s, b, &select_kw) {
        let p = skip_trivia(s, b + 6);
        match name_list_at(s, p) {
            Some((types, e)) => Some((UnderlyingType::Select { extensiblity: Extensiblity::NonExtensible, types }, e)),
            None => None,
        }
    } else {
        match param_type_at(s, b) {
            Some((ParameterType::Simple(st), e)) => Some((UnderlyingType::Simple(st), e)),
            Some((ParameterType::Named(n), e)) => Some((UnderlyingType::Reference(n), e)),
            Some(_) => None,
            None => None,
        }
    }
}

/// Reads a type declaration `TYPE id = underlying_type; END_TYPE;` at the
/// start of `input`, where the underlying type is a simple type, a type
/// name, an enumeration or a select; returns it with the number of
/// characters read.
pub fn type_decl(input: &str) -> (r: Result<(TypeDecl, usize), ParseError>)
    ensures
        match type_decl_of(input@, 0) {
            None => r matches Err(e) && e.production == Production::TypeDecl && e.position == 0,
            Some((m, e)) => r matches Ok((d, n)) && d.type_id@ == m.0 && underlying_matches(d.underlying_type, m.1)
                && d.where_clause is None && n == e,
        },
{
    let v = chars_of(input);
    let s = v.as_slice();
    let fail = ParseError { production: Production::TypeDecl, position: 0 };
    let type_kw = ['T', 'Y', 'P', 'E'];
    let end_type_kw = ['E', 'N', 'D', '_', 'T', 'Y', 'P', 'E'];
    assert(type_kw@ == kw_type());
    assert(end_type_kw@ == kw_end_type());
    proof {
        lemma_word_end_bounds(s@, 0);
    }
    if !at_keyword(s, 0, &type_kw) {
        return Err(fail);
    }
    let j = skip_trivia(s, 4);
    if j <= 4 || !at_ident(s, j) {
        return Err(fail);
    }
    let e = skip_word(s, j);
    let a = skip_trivia(s, e);
    if !at_char(s, a, '=') {
        return Err(fail);
    }
    let b = skip_trivia(s, a + 1);
    let (underlying_type, c) = match underlying_at(s, b) {
        Some(x) => x,
        None => return Err(fail),
    };
    let d = skip_trivia(s, c);
    if !at_char(s, d, ';') {
        return Err(fail);
    }
    let g = skip_trivia(s, d + 1);
    proof {
        lemma_word_end_bounds(s@, g as int);
    }
    if !at_keyword(s, g, &end_type_kw) {
        return Err(fail);
    }
    let h = skip_trivia(s, g + 8);
    if !at_char(s, h, ';') {
        return Err(fail);
    }
    Ok((TypeDecl { type_id: string_of(s, j, e), underlying_type, where_clause: None }, h + 1))
}

} // verus!
