//! JSON values: reading, lookup, shallow merging and compact rendering.
use vstd::prelude::*;
use vstd::string::*;
use crate::ids::{Digest, Id128};
use crate::order;
use crate::text;
use crate::value;
use crate::value::Value;

verus! {

/// A JSON value. The fields of an object ascend by name when it was read or
/// built by [`object`].
#[derive(Debug, PartialEq, Eq)]
pub enum Json {
    Null,
    Bool(bool),
    /// A whole number that fits.
    Unsigned(u64),
    /// Any other number, by its numeral.
    Number(String),
    Text(String),
    List(Vec<Json>),
    Object(Vec<Field>),
}

/// A named member of an object.
#[derive(Debug, PartialEq, Eq)]
pub struct Field {
    pub name: String,
    pub value: Json,
}

pub enum JsonView {
    Null,
    Bool(bool),
    Unsigned(u64),
    Number(Seq<char>),
    Text(Seq<char>),
    List(Seq<JsonView>),
    Object(Seq<FieldView>),
}

pub struct FieldView {
    pub name: Seq<char>,
    pub value: JsonView,
}

pub open spec fn json_view(v: Json) -> JsonView
    decreases v,
{
    match v {
        Json::Null => JsonView::Null,
        Json::Bool(b) => JsonView::Bool(b),
        Json::Unsigned(n) => JsonView::Unsigned(n),
        Json::Number(t) => JsonView::Number(t@),
        Json::Text(t) => JsonView::Text(t@),
        Json::List(items) => JsonView::List(list_view(items@)),
        Json::Object(fields) => JsonView::Object(fields_view(fields@)),
    }
}

pub open spec fn list_view(s: Seq<Json>) -> Seq<JsonView>
    decreases s,
{
    if s.len() == 0 {
        Seq::empty()
    } else {
        list_view(s.drop_last()).push(json_view(s.last()))
    }
}

pub open spec fn fields_view(s: Seq<Field>) -> Seq<FieldView>
    decreases s,
{
    if s.len() == 0 {
        Seq::empty()
    } else {
        fields_view(s.drop_last()).push(
            FieldView { name: s.last().name@, value: json_view(s.last().value) },
        )
    }
}

impl View for Json {
    type V = JsonView;

    open spec fn view(&self) -> JsonView {
        json_view(*self)
    }
}

impl View for Field {
    type V = FieldView;

    open spec fn view(&self) -> FieldView {
        FieldView { name: self.name@, value: self.value@ }
    }
}

pub proof fn lemma_list_view(s: Seq<Json>)
    ensures
        list_view(s) == value::views(s),
    decreases s.len(),
{
    if s.len() > 0 {
        lemma_list_view(s.drop_last());
    }
    assert(list_view(s) =~= value::views(s));
}

pub proof fn lemma_fields_view(s: Seq<Field>)
    ensures
        fields_view(s) == value::views(s),
    decreases s.len(),
{
    if s.len() > 0 {
        lemma_fields_view(s.drop_last());
    }
    assert(fields_view(s) =~= value::views(s));
}

fn copy_json(v: &Json) -> (r: Json)
    ensures
        r@ == v@,
    decreases v,
{
    match v {
        Json::Null => Json::Null,
        Json::Bool(b) => Json::Bool(*b),
        Json::Unsigned(n) => Json::Unsigned(*n),
        Json::Number(t) => Json::Number(t.clone()),
        Json::Text(t) => Json::Text(t.clone()),
        Json::List(items) => {
            let mut out: Vec<Json> = Vec::new();
            let mut i: usize = 0;
            while i < items.len()
                invariant
                    *v == Json::List(*items),
                    i <= items.len(),
                    out.len() == i,
                    forall|k: int| 0 <= k < i ==> (#[trigger] out@[k])@ == items@[k]@,
                decreases items.len() - i,
            {
                assert(decreases_to!(v => v->List_0));
                assert(decreases_to!(v->List_0@ => items@[i as int]));
                out.push(copy_json(&items[i]));
                i = i + 1;
            }
            proof {
                lemma_list_view(out@);
                lemma_list_view(items@);
                assert(value::views(out@) =~= value::views(items@));
            }
            Json::List(out)
        },
        Json::Object(fields) => {
            let mut out: Vec<Field> = Vec::new();
            let mut i: usize = 0;
            while i < fields.len()
                invariant
                    *v == Json::Object(*fields),
                    i <= fields.len(),
                    out.len() == i,
                    forall|k: int| 0 <= k < i ==> (#[trigger] out@[k])@ == fields@[k]@,
                decreases fields.len() - i,
            {
                assert(decreases_to!(v => v->Object_0));
                assert(decreases_to!(v->Object_0@ => fields@[i as int]));
                out.push(
                    Field { name: fields[i].name.clone(), value: copy_json(&fields[i].value) },
                );
                i = i + 1;
            }
            proof {
                lemma_fields_view(out@);
                lemma_fields_view(fields@);
                assert(value::views(out@) =~= value::views(fields@));
            }
            Json::Object(out)
        },
    }
}

fn same_json(a: &Json, b: &Json) -> (r: bool)
    ensures
        r == (a@ == b@),
    decreases a,
{
    match (a, b) {
        (Json::Null, Json::Null) => true,
        (Json::Bool(x), Json::Bool(y)) => *x == *y,
        (Json::Unsigned(x), Json::Unsigned(y)) => *x == *y,
        (Json::Number(x), Json::Number(y)) => x.same(y),
        (Json::Text(x), Json::Text(y)) => x.same(y),
        (Json::List(x), Json::List(y)) => {
            proof {
                lemma_list_view(x@);
                lemma_list_view(y@);
            }
            if x.len() != y.len() {
                assert(value::views(x@).len() != value::views(y@).len());
                return false;
            }
            let mut i: usize = 0;
            while i < x.len()
                invariant
                    *a == Json::List(*x),
                    *b == Json::List(*y),
                    a@ == JsonView::List(value::views(x@)),
                    b@ == JsonView::List(value::views(y@)),
                    x.len() == y.len(),
                    i <= x.len(),
                    forall|k: int| 0 <= k < i ==> (#[trigger] x@[k])@ == y@[k]@,
                decreases x.len() - i,
            {
                assert(decreases_to!(a => x@[i as int]));
                if !same_json(&x[i], &y[i]) {
                    assert(value::views(x@)[i as int] != value::views(y@)[i as int]);
                    return false;
                }
                i = i + 1;
            }
            assert(value::views(x@) =~= value::views(y@));
            true
        },
        (Json::Object(x), Json::Object(y)) => {
            proof {
                lemma_fields_view(x@);
                lemma_fields_view(y@);
            }
            if x.len() != y.len() {
                assert(value::views(x@).len() != value::views(y@).len());
                return false;
            }
            let mut i: usize = 0;
            while i < x.len()
                invariant
                    *a == Json::Object(*x),
                    *b == Json::Object(*y),
                    a@ == JsonView::Object(value::views(x@)),
                    b@ == JsonView::Object(value::views(y@)),
                    x.len() == y.len(),
                    i <= x.len(),
                    forall|k: int| 0 <= k < i ==> (#[trigger] x@[k])@ == y@[k]@,
                decreases x.len() - i,
            {
                assert(decreases_to!(a => x@[i as int]));
                if !x[i].name.same(&y[i].name) || !same_json(&x[i].value, &y[i].value) {
                    assert(value::views(x@)[i as int] != value::views(y@)[i as int]);
                    return false;
                }
                i = i + 1;
            }
            assert(value::views(x@) =~= value::views(y@));
            true
        },
        _ => false,
    }
}

impl Value for Json {
    fn copy(&self) -> (r: Self) {
        copy_json(self)
    }

    fn same(&self, other: &Self) -> (r: bool) {
        same_json(self, other)
    }
}

impl Value for Field {
    fn copy(&self) -> (r: Self) {
        Field { name: self.name.clone(), value: self.value.copy() }
    }

    fn same(&self, other: &Self) -> (r: bool) {
        self.name.same(&other.name) && self.value.same(&other.value)
    }
}

impl Clone for Json {
    fn clone(&self) -> (r: Self)
        ensures
            r@ == self@,
    {
        copy_json(self)
    }
}

impl Clone for Field {
    fn clone(&self) -> (r: Self)
        ensures
            r@ == self@,
    {
        self.copy()
    }
}

// ---------- lookup ----------

/// The value of the first field called `name`.
pub open spec fn lookup(fields: Seq<FieldView>, name: Seq<char>) -> Option<JsonView>
    decreases fields.len(),
{
    if fields.len() == 0 {
        None
    } else if fields[0].name == name {
        Some(fields[0].value)
    } else {
        lookup(fields.drop_first(), name)
    }
}

/// The member `name` of an object; nothing of any other value.
pub open spec fn member(v: JsonView, name: Seq<char>) -> Option<JsonView> {
    match v {
        JsonView::Object(fields) => lookup(fields, name),
        _ => None,
    }
}

/// The member `name` if it is a text.
pub open spec fn text_member(v: JsonView, name: Seq<char>) -> Option<Seq<char>> {
    match member(v, name) {
        Some(JsonView::Text(t)) => Some(t),
        _ => None,
    }
}

/// The member `name` if it is a whole number that fits.
pub open spec fn unsigned_member(v: JsonView, name: Seq<char>) -> Option<u64> {
    match member(v, name) {
        Some(JsonView::Unsigned(n)) => Some(n),
        _ => None,
    }
}

impl Json {
    /// The member `name` of an object.
    pub fn get(&self, name: &str) -> (r: Option<&Json>)
        ensures
            match r {
                Some(v) => member(self@, name@) == Some(v@),
                None => member(self@, name@) is None,
            },
    {
        match self {
            Json::Object(fields) => {
                proof {
                    lemma_fields_view(fields@);
                }
                let ghost all = value::views(fields@);
                let mut i: usize = 0;
                assert(all.skip(0) =~= all);
                while i < fields.len()
                    invariant
                        i <= fields.len(),
                        all == value::views(fields@),
                        self@ == JsonView::Object(all),
                        lookup(all, name@) == lookup(all.skip(i as int), name@),
                    decreases fields.len() - i,
                {
                    proof {
                        assert(all.skip(i as int)[0] == fields@[i as int]@);
                        assert(all.skip(i as int).drop_first() =~= all.skip(i + 1));
                    }
                    if text::same_text(fields[i].name.as_str(), name) {
                        return Some(&fields[i].value);
                    }
                    i = i + 1;
                }
                None
            },
            _ => None,
        }
    }

    /// The member `name` if it is a text.
    pub fn get_text(&self, name: &str) -> (r: Option<&String>)
        ensures
            match r {
                Some(t) => text_member(self@, name@) == Some(t@),
                None => text_member(self@, name@) is None,
            },
    {
        match self.get(name) {
            Some(Json::Text(t)) => Some(t),
            _ => None,
        }
    }

    /// The member `name` if it is a whole number that fits.
    pub fn get_unsigned(&self, name: &str) -> (r: Option<u64>)
        ensures
            r == unsigned_member(self@, name@),
    {
        match self.get(name) {
            Some(Json::Unsigned(n)) => Some(*n),
            _ => None,
        }
    }

    pub fn is_object(&self) -> (r: bool)
        ensures
            r == (self@ is Object),
    {
        match self {
            Json::Object(_) => true,
            _ => false,
        }
    }

    pub fn is_bool(&self) -> (r: bool)
        ensures
            r == (self@ is Bool),
    {
        match self {
            Json::Bool(_) => true,
            _ => false,
        }
    }
}

// ---------- merging ----------

pub open spec fn field_order() -> spec_fn(FieldView) -> Seq<Seq<char>> {
    |f: FieldView| seq![f.name]
}

/// The position of the first field called `name`, or the number of fields.
pub open spec fn field_place(fields: Seq<FieldView>, name: Seq<char>) -> int
    decreases fields.len(),
{
    if fields.len() == 0 {
        0
    } else if fields[0].name == name {
        0
    } else {
        1 + field_place(fields.drop_first(), name)
    }
}

/// `fields` with `f` set: in the place of the field of that name, or placed
/// in ascending order.
pub open spec fn set_field(fields: Seq<FieldView>, f: FieldView) -> Seq<FieldView> {
    if lookup(fields, f.name) is Some {
        fields.update(field_place(fields, f.name), f)
    } else {
        order::placed(fields, field_order(), f)
    }
}

/// `base` with each of `incoming` set, one after the other: a shallow merge
/// in which later fields win.
pub open spec fn merged(base: Seq<FieldView>, incoming: Seq<FieldView>) -> Seq<FieldView>
    decreases incoming.len(),
{
    if incoming.len() == 0 {
        base
    } else {
        set_field(merged(base, incoming.drop_last()), incoming.last())
    }
}

pub proof fn lemma_field_place(fields: Seq<FieldView>, name: Seq<char>)
    ensures
        0 <= field_place(fields, name) <= fields.len(),
        lookup(fields, name) is Some ==> field_place(fields, name) < fields.len() && fields[field_place(
            fields,
            name,
        )].name == name && lookup(fields, name) == Some(fields[field_place(fields, name)].value),
        lookup(fields, name) is None ==> field_place(fields, name) == fields.len(),
        forall|i: int|
            0 <= i < field_place(fields, name) ==> (#[trigger] fields[i]).name != name,
    decreases fields.len(),
{
    if fields.len() > 0 && fields[0].name != name {
        let rest = fields.drop_first();
        lemma_field_place(rest, name);
        assert forall|i: int| 0 <= i < field_place(fields, name) implies (#[trigger] fields[i]).name
            != name by {
            if i > 0 {
                assert(rest[i - 1] == fields[i]);
            }
        }
    }
}

/// A field found at a position before which the name does not occur.
proof fn lemma_place_at(fields: Seq<FieldView>, name: Seq<char>, p: int)
    requires
        0 <= p <= fields.len(),
        forall|i: int| 0 <= i < p ==> (#[trigger] fields[i]).name != name,
        p < fields.len() ==> fields[p].name == name,
    ensures
        field_place(fields, name) == p,
        lookup(fields, name) is Some <==> p < fields.len(),
{
    lemma_field_place(fields, name);
    let q = field_place(fields, name);
    if q < p {
        if q < fields.len() {
            assert(fields[q].name != name);
        }
    } else if q > p {
        assert(fields[p].name != name);
    }
}

/// Sets one field.
fn put_field(fields: &mut Vec<Field>, f: Field)
    ensures
        value::views(final(fields)@) == set_field(value::views(old(fields)@), f@),
{
    broadcast use value::group_views;

    let ghost before = value::views(fields@);
    let ghost shown = f@;
    let mut i: usize = 0;
    while i < fields.len() && !fields[i].name.same(&f.name)
        invariant
            i <= fields.len(),
            before == value::views(fields@),
            forall|k: int| 0 <= k < i ==> (#[trigger] before[k]).name != f@.name,
        decreases fields.len() - i,
    {
        assert(before[i as int] == fields@[i as int]@);
        i = i + 1;
    }
    proof {
        if i < fields.len() {
            assert(before[i as int] == fields@[i as int]@);
        }
        lemma_place_at(before, f@.name, i as int);
    }
    if i < fields.len() {
        fields.set(i, f);
        return ;
    }
    let mut p: usize = fields.len();
    let ghost key = field_order();
    assert(before.take(p as int) =~= before);
    assert(order::placed(before, key, shown) =~= order::placed(before.take(p as int), key, shown)
        + before.skip(p as int));
    while p > 0 && !text::at_or_before(fields[p - 1].name.as_str(), f.name.as_str())
        invariant
            p <= fields.len(),
            before == value::views(fields@),
            shown == f@,
            key == field_order(),
            forall|k: int| 0 <= k < before.len() ==> (#[trigger] before[k]).name != f@.name,
            order::placed(before, key, shown) == order::placed(before.take(p as int), key, shown)
                + before.skip(p as int),
        decreases p,
    {
        proof {
            let t = before.take(p as int);
            assert(t.last() == before[p - 1]);
            assert(before[p - 1] == fields@[p - 1]@);
            assert(key(t.last()).len() == 1 && key(shown).len() == 1);
            assert(t.drop_last() =~= before.take(p - 1));
            assert(!order::key_le(key(t.last()), key(shown)));
            assert(order::placed(t, key, shown) == order::placed(t.drop_last(), key, shown).push(
                t.last(),
            ));
            assert(order::placed(before, key, shown) =~= order::placed(
                before.take(p - 1),
                key,
                shown,
            ) + before.skip(p - 1));
        }
        p = p - 1;
    }
    proof {
        let t = before.take(p as int);
        if p > 0 {
            assert(t.last() == before[p - 1]);
            assert(before[p - 1] == fields@[p - 1]@);
            assert(order::key_le(key(t.last()), key(shown)));
        }
        assert(order::placed(t, key, shown) == t.push(shown));
        assert(before.insert(p as int, shown) =~= t.push(shown) + before.skip(p as int));
    }
    fields.insert(p, f);
    assert(value::views(fields@) =~= before.insert(p as int, shown));
}

/// Merges `incoming` over `base`, field by field.
pub fn merge_fields(base: &mut Vec<Field>, incoming: &Vec<Field>)
    ensures
        value::views(final(base)@) == merged(
            value::views(old(base)@),
            value::views(incoming@),
        ),
{
    let ghost start = value::views(base@);
    let ghost all = value::views(incoming@);
    let mut i: usize = 0;
    assert(all.take(0) =~= Seq::empty());
    while i < incoming.len()
        invariant
            i <= incoming.len(),
            all == value::views(incoming@),
            value::views(base@) == merged(start, all.take(i as int)),
        decreases incoming.len() - i,
    {
        let f = incoming[i].copy();
        proof {
            assert(all.take(i + 1).drop_last() =~= all.take(i as int));
            assert(all.take(i + 1).last() == f@);
        }
        put_field(base, f);
        i = i + 1;
    }
    assert(all.take(i as int) =~= all);
}

/// An object whose fields ascend by name; a later field of the same name wins.
pub fn object(fields: Vec<Field>) -> (r: Json)
    ensures
        r@ == JsonView::Object(merged(Seq::empty(), value::views(fields@))),
{
    let mut out: Vec<Field> = Vec::new();
    assert(value::views(out@) =~= Seq::empty());
    merge_fields(&mut out, &fields);
    proof {
        lemma_fields_view(out@);
    }
    Json::Object(out)
}

/// A field by its name and value.
pub open spec fn fv(name: Seq<char>, v: JsonView) -> FieldView {
    FieldView { name, value: v }
}

/// A text, or null where there is none.
pub open spec fn text_or_null(t: Option<Seq<char>>) -> JsonView {
    match t {
        Some(t) => JsonView::Text(t),
        None => JsonView::Null,
    }
}

/// A number, or null where there is none.
pub open spec fn number_or_null(n: Option<u64>) -> JsonView {
    match n {
        Some(n) => JsonView::Unsigned(n),
        None => JsonView::Null,
    }
}

pub open spec fn text_list(s: Seq<Seq<char>>) -> JsonView {
    JsonView::List(s.map_values(|t: Seq<char>| JsonView::Text(t)))
}

/// The text value of a text.
pub fn text_json(t: &str) -> (r: Json)
    ensures
        r@ == JsonView::Text(t@),
{
    Json::Text(t.to_owned())
}

pub fn digest_or_null(d: &Option<Digest>) -> (r: Json)
    ensures
        r@ == text_or_null(value::opt_view(*d)),
{
    match d {
        Some(d) => Json::Text(d.text.clone()),
        None => Json::Null,
    }
}

pub fn id_or_null(d: &Option<Id128>) -> (r: Json)
    ensures
        r@ == text_or_null(value::opt_view(*d)),
{
    match d {
        Some(d) => Json::Text(d.text.clone()),
        None => Json::Null,
    }
}

pub fn string_or_null(d: &Option<String>) -> (r: Json)
    ensures
        r@ == text_or_null(value::opt_view(*d)),
{
    match d {
        Some(d) => Json::Text(d.clone()),
        None => Json::Null,
    }
}

pub fn unsigned_or_null(n: Option<u64>) -> (r: Json)
    ensures
        r@ == number_or_null(n),
{
    match n {
        Some(n) => Json::Unsigned(n),
        None => Json::Null,
    }
}

/// The list of the digests' texts.
pub fn digest_list(all: &Vec<Digest>) -> (r: Json)
    ensures
        r@ == text_list(value::views(all@)),
{
    let mut out: Vec<Json> = Vec::new();
    let ghost texts = value::views(all@).map_values(|t: Seq<char>| JsonView::Text(t));
    let mut i: usize = 0;
    assert(value::views(out@) =~= texts.take(0));
    while i < all.len()
        invariant
            i <= all.len(),
            texts == value::views(all@).map_values(|t: Seq<char>| JsonView::Text(t)),
            value::views(out@) == texts.take(i as int),
        decreases all.len() - i,
    {
        let ghost before = value::views(out@);
        out.push(Json::Text(all[i].text.clone()));
        assert(value::views(out@) =~= before.push(JsonView::Text(all@[i as int]@)));
        assert(texts.take(i + 1) =~= texts.take(i as int).push(texts[i as int]));
        i = i + 1;
    }
    assert(texts.take(i as int) =~= texts);
    list(out)
}

// Objects of a few fields, in the order given.
pub open spec fn fields1(a: FieldView) -> Seq<FieldView> {
    Seq::<FieldView>::empty().push(a)
}

pub open spec fn fields2(a: FieldView, b: FieldView) -> Seq<FieldView> {
    fields1(a).push(b)
}

pub open spec fn fields3(a: FieldView, b: FieldView, c: FieldView) -> Seq<FieldView> {
    fields2(a, b).push(c)
}

pub open spec fn fields4(a: FieldView, b: FieldView, c: FieldView, d: FieldView) -> Seq<FieldView> {
    fields3(a, b, c).push(d)
}

pub open spec fn fields5(a: FieldView, b: FieldView, c: FieldView, d: FieldView, e: FieldView) -> Seq<FieldView> {
    fields4(a, b, c, d).push(e)
}

pub open spec fn fields6(a: FieldView, b: FieldView, c: FieldView, d: FieldView, e: FieldView, f: FieldView) -> Seq<FieldView> {
    fields5(a, b, c, d, e).push(f)
}

pub open spec fn fields7(a: FieldView, b: FieldView, c: FieldView, d: FieldView, e: FieldView, f: FieldView, g: FieldView) -> Seq<FieldView> {
    fields6(a, b, c, d, e, f).push(g)
}

/// Objects of one field are equal when their fields are.
pub proof fn lemma_fields1(a: FieldView, x: FieldView)
    requires
        fields1(a) == fields1(x),
    ensures
        a == x,
{
    assert(fields1(a)[0] == a && fields1(x)[0] == x);
}

proof fn lemma_pushed(s: Seq<FieldView>, a: FieldView, t: Seq<FieldView>, x: FieldView)
    requires
        s.push(a) == t.push(x),
    ensures
        s == t,
        a == x,
{
    assert(s.push(a).last() == a && t.push(x).last() == x);
    assert(s.push(a).drop_last() =~= s);
    assert(t.push(x).drop_last() =~= t);
}

pub proof fn lemma_fields2(a: FieldView, b: FieldView, x: FieldView, y: FieldView)
    requires
        fields2(a, b) == fields2(x, y),
    ensures
        a == x,
        b == y,
{
    lemma_pushed(fields1(a), b, fields1(x), y);
    lemma_fields1(a, x);
}

/// No fields yet.
pub fn no_fields() -> (r: Vec<Field>)
    ensures
        value::views(r@) == Seq::<FieldView>::empty(),
{
    let r: Vec<Field> = Vec::new();
    assert(value::views(r@) =~= Seq::<FieldView>::empty());
    r
}

/// The fields with one more at the end.
pub fn field(fields: Vec<Field>, name: &str, v: Json) -> (r: Vec<Field>)
    ensures
        value::views(r@) == value::views(fields@).push(FieldView { name: name@, value: v@ }),
{
    let ghost before = value::views(fields@);
    let mut out = fields;
    out.push(Field { name: name.to_owned(), value: v });
    assert(value::views(out@) =~= before.push(FieldView { name: name@, value: v@ }));
    out
}

/// An object with the fields as they stand.
pub fn record(fields: Vec<Field>) -> (r: Json)
    ensures
        r@ == JsonView::Object(value::views(fields@)),
{
    proof {
        lemma_fields_view(fields@);
    }
    Json::Object(fields)
}

/// An array of the items as they stand.
pub fn list(items: Vec<Json>) -> (r: Json)
    ensures
        r@ == JsonView::List(value::views(items@)),
{
    proof {
        lemma_list_view(items@);
    }
    Json::List(items)
}

// ---------- rendering ----------

/// The hexadecimal digit of a number below sixteen.
pub open spec fn hex(n: int) -> char {
    if n < 10 {
        ('0' as int + n) as char
    } else {
        ('a' as int + n - 10) as char
    }
}

/// A character inside a string literal: quotes, backslashes and control
/// characters are escaped.
pub open spec fn escaped(c: char) -> Seq<char> {
    if c == '"' || c == '\\' {
        seq!['\\', c]
    } else if c == '\u{8}' {
        seq!['\\', 'b']
    } else if c == '\t' {
        seq!['\\', 't']
    } else if c == '\n' {
        seq!['\\', 'n']
    } else if c == '\u{c}' {
        seq!['\\', 'f']
    } else if c == '\r' {
        seq!['\\', 'r']
    } else if 32 > c as int {
        seq!['\\', 'u', '0', '0', hex(c as int / 16), hex(c as int % 16)]
    } else {
        seq![c]
    }
}

pub open spec fn escaped_text(t: Seq<char>) -> Seq<char>
    decreases t.len(),
{
    if t.len() == 0 {
        Seq::empty()
    } else {
        escaped(t[0]) + escaped_text(t.drop_first())
    }
}

/// The JSON string literal of a text.
pub open spec fn quoted(t: Seq<char>) -> Seq<char> {
    seq!['"'] + escaped_text(t) + seq!['"']
}

/// `serde_json::to_string` on a `str`: the text in quotes, with a quote and a
/// backslash behind a backslash, the control characters as `\b`, `\t`, `\n`,
/// `\f`, `\r` or by their number, and every other character as it stands. It
/// cannot fail on a text.
#[verifier::external_body]
fn quote(t: &str) -> (r: String)
    ensures
        r@ == quoted(t@),
{
    serde_json::to_string(t).expect("a text always has a JSON literal")
}

/// The compact JSON text of a value, its fields in the order they stand.
pub open spec fn json_text(v: JsonView) -> Seq<char>
    decreases v,
{
    match v {
        JsonView::Null => "null"@,
        JsonView::Bool(b) => if b {
            "true"@
        } else {
            "false"@
        },
        JsonView::Unsigned(n) => text::decimal(n as nat),
        JsonView::Number(t) => t,
        JsonView::Text(t) => quoted(t),
        JsonView::List(items) => "["@ + items_text(items) + "]"@,
        JsonView::Object(fields) => "{"@ + fields_text(fields) + "}"@,
    }
}

pub open spec fn items_text(s: Seq<JsonView>) -> Seq<char>
    decreases s,
{
    if s.len() == 0 {
        Seq::empty()
    } else if s.len() == 1 {
        json_text(s[0])
    } else {
        items_text(s.drop_last()) + ","@ + json_text(s.last())
    }
}

pub open spec fn field_text(f: FieldView) -> Seq<char>
    decreases f,
{
    quoted(f.name) + ":"@ + json_text(f.value)
}

pub open spec fn fields_text(s: Seq<FieldView>) -> Seq<char>
    decreases s,
{
    if s.len() == 0 {
        Seq::empty()
    } else if s.len() == 1 {
        field_text(s[0])
    } else {
        fields_text(s.drop_last()) + ","@ + field_text(s.last())
    }
}

/// Renders a value compactly.
pub fn render(v: &Json) -> (r: String)
    ensures
        r@ == json_text(v@),
    decreases v,
{
    match v {
        Json::Null => "null".to_owned(),
        Json::Bool(b) => if *b {
            "true".to_owned()
        } else {
            "false".to_owned()
        },
        Json::Unsigned(n) => text::decimal_text(*n),
        Json::Number(t) => t.clone(),
        Json::Text(t) => quote(t.as_str()),
        Json::List(items) => {
            let mut out = "[".to_owned();
            let ghost all = value::views(items@);
            let mut i: usize = 0;
            assert(all.take(0) =~= Seq::empty());
            assert("["@ + items_text(all.take(0)) =~= "["@);
            while i < items.len()
                invariant
                    *v == Json::List(*items),
                    i <= items.len(),
                    all == value::views(items@),
                    out@ == "["@ + items_text(all.take(i as int)),
                decreases items.len() - i,
            {
                assert(decreases_to!(v => v->List_0));
                assert(decreases_to!(v->List_0@ => items@[i as int]));
                let part = render(&items[i]);
                proof {
                    assert(all.take(i + 1).drop_last() =~= all.take(i as int));
                    assert(all.take(i + 1).last() == items@[i as int]@);
                }
                if i > 0 {
                    out.append(",");
                }
                out.append(part.as_str());
                i = i + 1;
                assert(out@ =~= "["@ + items_text(all.take(i as int)));
            }
            out.append("]");
            proof {
                assert(all.take(i as int) =~= all);
                lemma_list_view(items@);
            }
            out
        },
        Json::Object(fields) => {
            let mut out = "{".to_owned();
            let ghost all = value::views(fields@);
            let mut i: usize = 0;
            assert(all.take(0) =~= Seq::empty());
            assert("{"@ + fields_text(all.take(0)) =~= "{"@);
            while i < fields.len()
                invariant
                    *v == Json::Object(*fields),
                    i <= fields.len(),
                    all == value::views(fields@),
                    out@ == "{"@ + fields_text(all.take(i as int)),
                decreases fields.len() - i,
            {
                assert(decreases_to!(v => v->Object_0));
                assert(decreases_to!(v->Object_0@ => fields@[i as int]));
                let name = quote(fields[i].name.as_str());
                let part = render(&fields[i].value);
                let whole = text::cat3(name.as_str(), ":", part.as_str());
                proof {
                    assert(all.take(i + 1).drop_last() =~= all.take(i as int));
                    assert(all.take(i + 1).last() == fields@[i as int]@);
                    assert(whole@ == field_text(all[i as int]));
                }
                if i > 0 {
                    out.append(",");
                }
                out.append(whole.as_str());
                i = i + 1;
                assert(out@ =~= "{"@ + fields_text(all.take(i as int)));
            }
            out.append("}");
            proof {
                assert(all.take(i as int) =~= all);
                lemma_fields_view(fields@);
            }
            out
        },
    }
}

/// The value with every object's fields ascending by name.
pub open spec fn normal(v: JsonView) -> JsonView
    decreases v,
{
    match v {
        JsonView::List(items) => JsonView::List(normal_items(items)),
        JsonView::Object(fields) => JsonView::Object(
            merged(Seq::empty(), normal_fields(fields)),
        ),
        _ => v,
    }
}

pub open spec fn normal_items(s: Seq<JsonView>) -> Seq<JsonView>
    decreases s,
{
    if s.len() == 0 {
        Seq::empty()
    } else {
        normal_items(s.drop_last()).push(normal(s.last()))
    }
}

pub open spec fn normal_fields(s: Seq<FieldView>) -> Seq<FieldView>
    decreases s,
{
    if s.len() == 0 {
        Seq::empty()
    } else {
        normal_fields(s.drop_last()).push(
            FieldView { name: s.last().name, value: normal(s.last().value) },
        )
    }
}

/// Puts every object's fields in ascending order.
pub fn normalize(v: &Json) -> (r: Json)
    ensures
        r@ == normal(v@),
    decreases v,
{
    broadcast use value::group_views;

    match v {
        Json::List(items) => {
            let mut out: Vec<Json> = Vec::new();
            let ghost all = value::views(items@);
            let mut i: usize = 0;
            assert(all.take(0) =~= Seq::empty());
            while i < items.len()
                invariant
                    *v == Json::List(*items),
                    i <= items.len(),
                    all == value::views(items@),
                    value::views(out@) == normal_items(all.take(i as int)),
                decreases items.len() - i,
            {
                assert(decreases_to!(v => v->List_0));
                assert(decreases_to!(v->List_0@ => items@[i as int]));
                let part = normalize(&items[i]);
                proof {
                    assert(all.take(i + 1).drop_last() =~= all.take(i as int));
                    assert(all.take(i + 1).last() == items@[i as int]@);
                }
                out.push(part);
                i = i + 1;
            }
            proof {
                assert(all.take(i as int) =~= all);
                lemma_list_view(items@);
                lemma_list_view(out@);
            }
            Json::List(out)
        },
        Json::Object(fields) => {
            let mut out: Vec<Field> = Vec::new();
            let ghost all = value::views(fields@);
            let mut i: usize = 0;
            assert(all.take(0) =~= Seq::empty());
            while i < fields.len()
                invariant
                    *v == Json::Object(*fields),
                    i <= fields.len(),
                    all == value::views(fields@),
                    value::views(out@) == normal_fields(all.take(i as int)),
                decreases fields.len() - i,
            {
                assert(decreases_to!(v => v->Object_0));
                assert(decreases_to!(v->Object_0@ => fields@[i as int]));
                let part = Field {
                    name: fields[i].name.clone(),
                    value: normalize(&fields[i].value),
                };
                proof {
                    assert(all.take(i + 1).drop_last() =~= all.take(i as int));
                    assert(all.take(i + 1).last() == fields@[i as int]@);
                }
                out.push(part);
                i = i + 1;
            }
            proof {
                assert(all.take(i as int) =~= all);
                lemma_fields_view(fields@);
            }
            object(out)
        },
        _ => v.copy(),
    }
}

// ---------- reading ----------

/// A JSON value without parts.
pub enum Scalar {
    Null,
    Bool(bool),
    /// The shortest numeral of a number.
    Number(String),
    Text(String),
}

pub enum ScalarView {
    Null,
    Bool(bool),
    Number(Seq<char>),
    Text(Seq<char>),
}

impl View for Scalar {
    type V = ScalarView;

    open spec fn view(&self) -> ScalarView {
        match *self {
            Scalar::Null => ScalarView::Null,
            Scalar::Bool(b) => ScalarView::Bool(b),
            Scalar::Number(t) => ScalarView::Number(t@),
            Scalar::Text(t) => ScalarView::Text(t@),
        }
    }
}

/// The scalar that a JSON text denotes.
pub uninterp spec fn json_scalar(t: Seq<char>) -> Option<ScalarView>;

/// `serde_json::from_str` into a `serde_json::Value`, for a text without
/// parts: nothing when it is not JSON, else its value, a number by the text
/// that `serde_json::Number` displays. It is a function of the text alone.
#[verifier::external_body]
fn read_scalar(t: &str) -> (r: Option<Scalar>)
    ensures
        value::opt_view(r) == json_scalar(t@),
{
    match serde_json::from_str::<serde_json::Value>(t).ok()? {
        serde_json::Value::Null => Some(Scalar::Null),
        serde_json::Value::Bool(b) => Some(Scalar::Bool(b)),
        serde_json::Value::Number(n) => Some(Scalar::Number(n.to_string())),
        serde_json::Value::String(s) => Some(Scalar::Text(s)),
        serde_json::Value::Array(_) => None,
        serde_json::Value::Object(_) => None,
    }
}

/// The items of a JSON list, each as the text it has there.
pub uninterp spec fn json_items(t: Seq<char>) -> Option<Seq<Seq<char>>>;

/// `serde_json::from_str` into a list of `serde_json::value::RawValue`:
/// nothing when the text is no JSON list, else the items, each as the text
/// that stands there. It is a function of the text alone.
#[verifier::external_body]
fn read_items(t: &str) -> (r: Option<Vec<String>>)
    ensures
        (match r {
            Some(items) => Some(value::views(items@)),
            None => None,
        }) == json_items(t@),
{
    let items = serde_json::from_str::<Vec<Box<serde_json::value::RawValue>>>(t).ok()?;
    Some(items.iter().map(|v| v.get().to_owned()).collect())
}

pub open spec fn pairs(s: Seq<(String, String)>) -> Seq<(Seq<char>, Seq<char>)> {
    s.map_values(|f: (String, String)| (f.0@, f.1@))
}

/// The members of a JSON object, each with the text it has there.
pub uninterp spec fn json_members(t: Seq<char>) -> Option<Seq<(Seq<char>, Seq<char>)>>;

/// `serde_json::from_str` into an ordered map of
/// `serde_json::value::RawValue`: nothing when the text is no JSON object,
/// else the members ascending by name, the last of those that share one, each
/// with the text that stands there. It is a function of the text alone.
#[verifier::external_body]
fn read_members(t: &str) -> (r: Option<Vec<(String, String)>>)
    ensures
        (match r {
            Some(fields) => Some(pairs(fields@)),
            None => None,
        }) == json_members(t@),
{
    let fields = serde_json::from_str::<
        std::collections::BTreeMap<String, Box<serde_json::value::RawValue>>,
    >(t).ok()?;
    Some(fields.iter().map(|(k, v)| (k.clone(), v.get().to_owned())).collect())
}

pub open spec fn is_blank(c: char) -> bool {
    c == ' ' || c == '\t' || c == '\n' || c == '\r'
}

/// The first character that is not blank.
pub open spec fn opening(t: Seq<char>) -> Option<char>
    decreases t.len(),
{
    if t.len() == 0 {
        None
    } else if is_blank(t[0]) {
        opening(t.drop_first())
    } else {
        Some(t[0])
    }
}

fn first_mark(t: &str) -> (r: Option<char>)
    ensures
        r == opening(t@),
{
    let len: usize = t.unicode_len();
    let mut i: usize = 0;
    assert(t@.skip(0) =~= t@);
    while i < len
        invariant
            i <= len,
            len == t@.len(),
            opening(t@) == opening(t@.skip(i as int)),
        decreases len - i,
    {
        let c = t.get_char(i);
        proof {
            assert(t@.skip(i as int)[0] == c);
            assert(t@.skip(i as int).drop_first() =~= t@.skip(i + 1));
        }
        if !(c == ' ' || c == '\t' || c == '\n' || c == '\r') {
            return Some(c);
        }
        i = i + 1;
    }
    None
}

/// A number by its numeral: an unsigned one where it is one.
pub open spec fn number_json(t: Seq<char>) -> JsonView {
    match text::number_in(t) {
        Some(n) => JsonView::Unsigned(n),
        None => JsonView::Number(t),
    }
}

/// The value a JSON text denotes, read down to `depth` levels of nesting. A
/// list or an object takes one more level than its parts.
pub open spec fn reading(t: Seq<char>, depth: nat) -> Option<JsonView>
    decreases depth, 0nat,
{
    if depth == 0 {
        None
    } else if opening(t) == Some('[') {
        match json_items(t) {
            Some(items) => if depth == 1 {
                None
            } else {
                match items_reading(items, (depth - 1) as nat) {
                    Some(list) => Some(JsonView::List(list)),
                    None => None,
                }
            },
            None => None,
        }
    } else if opening(t) == Some('{') {
        match json_members(t) {
            Some(fields) => if depth == 1 {
                None
            } else {
                match fields_reading(fields, (depth - 1) as nat) {
                    Some(all) => Some(JsonView::Object(all)),
                    None => None,
                }
            },
            None => None,
        }
    } else {
        match json_scalar(t) {
            None => None,
            Some(ScalarView::Null) => Some(JsonView::Null),
            Some(ScalarView::Bool(b)) => Some(JsonView::Bool(b)),
            Some(ScalarView::Number(n)) => Some(number_json(n)),
            Some(ScalarView::Text(x)) => Some(JsonView::Text(x)),
        }
    }
}

pub open spec fn items_reading(s: Seq<Seq<char>>, depth: nat) -> Option<Seq<JsonView>>
    decreases depth, s.len() + 1,
{
    if s.len() == 0 {
        Some(Seq::empty())
    } else {
        match (items_reading(s.drop_last(), depth), reading(s.last(), depth)) {
            (Some(rest), Some(v)) => Some(rest.push(v)),
            _ => None,
        }
    }
}

pub open spec fn fields_reading(
    s: Seq<(Seq<char>, Seq<char>)>,
    depth: nat,
) -> Option<Seq<FieldView>>
    decreases depth, s.len() + 1,
{
    if s.len() == 0 {
        Some(Seq::empty())
    } else {
        match (fields_reading(s.drop_last(), depth), reading(s.last().1, depth)) {
            (Some(rest), Some(v)) => Some(rest.push(FieldView { name: s.last().0, value: v })),
            _ => None,
        }
    }
}

proof fn lemma_items_reading_stays(s: Seq<Seq<char>>, depth: nat, n: int)
    requires
        0 <= n <= s.len(),
        items_reading(s.take(n), depth) is None,
    ensures
        items_reading(s, depth) is None,
    decreases s.len() - n,
{
    if n == s.len() {
        assert(s.take(n) =~= s);
    } else {
        assert(s.take(n + 1).drop_last() =~= s.take(n));
        lemma_items_reading_stays(s, depth, n + 1);
    }
}

proof fn lemma_fields_reading_stays(s: Seq<(Seq<char>, Seq<char>)>, depth: nat, n: int)
    requires
        0 <= n <= s.len(),
        fields_reading(s.take(n), depth) is None,
    ensures
        fields_reading(s, depth) is None,
    decreases s.len() - n,
{
    if n == s.len() {
        assert(s.take(n) =~= s);
    } else {
        assert(s.take(n + 1).drop_last() =~= s.take(n));
        lemma_fields_reading_stays(s, depth, n + 1);
    }
}

/// How deep a text may be nested: a scalar within one list or object less.
pub const READ_DEPTH: u64 = 128;

fn read_to(t: &str, depth: u64) -> (r: Option<Json>)
    ensures
        value::opt_view(r) == reading(t@, depth as nat),
    decreases depth,
{
    broadcast use value::group_views;

    if depth == 0 {
        return None;
    }
    match first_mark(t) {
        Some('[') => {
            let items = match read_items(t) {
                Some(items) => items,
                None => return None,
            };
            if depth == 1 {
                return None;
            }
            let mut out: Vec<Json> = Vec::new();
            let ghost all = value::views(items@);
            let ghost below = (depth - 1) as nat;
            let mut i: usize = 0;
            assert(all.take(0) =~= Seq::empty());
            while i < items.len()
                invariant
                    i <= items.len(),
                    depth > 1,
                    below == (depth - 1) as nat,
                    all == value::views(items@),
                    opening(t@) == Some('['),
                    json_items(t@) == Some(all),
                    items_reading(all.take(i as int), below) == Some(value::views(out@)),
                decreases items.len() - i,
            {
                proof {
                    assert(all.take(i + 1).drop_last() =~= all.take(i as int));
                    assert(all.take(i + 1).last() == items@[i as int]@);
                }
                match read_to(items[i].as_str(), depth - 1) {
                    Some(v) => {
                        out.push(v);
                    },
                    None => {
                        proof {
                            lemma_items_reading_stays(all, below, i + 1);
                        }
                        return None;
                    },
                }
                i = i + 1;
            }
            proof {
                assert(all.take(i as int) =~= all);
                lemma_list_view(out@);
            }
            Some(Json::List(out))
        },
        Some('{') => {
            let fields = match read_members(t) {
                Some(fields) => fields,
                None => return None,
            };
            if depth == 1 {
                return None;
            }
            let mut out: Vec<Field> = Vec::new();
            let ghost all = pairs(fields@);
            let ghost below = (depth - 1) as nat;
            let mut i: usize = 0;
            assert(all.take(0) =~= Seq::empty());
            while i < fields.len()
                invariant
                    i <= fields.len(),
                    depth > 1,
                    below == (depth - 1) as nat,
                    all == pairs(fields@),
                    opening(t@) == Some('{'),
                    json_members(t@) == Some(all),
                    fields_reading(all.take(i as int), below) == Some(value::views(out@)),
                decreases fields.len() - i,
            {
                proof {
                    assert(all.take(i + 1).drop_last() =~= all.take(i as int));
                    assert(all.take(i + 1).last() == all[i as int]);
                }
                match read_to(fields[i].1.as_str(), depth - 1) {
                    Some(v) => {
                        out.push(Field { name: fields[i].0.clone(), value: v });
                    },
                    None => {
                        proof {
                            lemma_fields_reading_stays(all, below, i + 1);
                        }
                        return None;
                    },
                }
                i = i + 1;
            }
            proof {
                assert(all.take(i as int) =~= all);
                lemma_fields_view(out@);
            }
            Some(Json::Object(out))
        },
        _ => match read_scalar(t) {
            None => None,
            Some(Scalar::Null) => Some(Json::Null),
            Some(Scalar::Bool(b)) => Some(Json::Bool(b)),
            Some(Scalar::Number(n)) => match text::parse_number(n.as_str()) {
                Some(u) => Some(Json::Unsigned(u)),
                None => Some(Json::Number(n)),
            },
            Some(Scalar::Text(x)) => Some(Json::Text(x)),
        },
    }
}

/// Whether a text is read as one JSON value from end to end.
pub uninterp spec fn json_accepted(t: Seq<char>) -> bool;

/// `serde_json::from_str` into a `serde_json::Value`: whether it gives one. It
/// reads every member of an object, those too that a later one of the same name
/// replaces, and takes no object that starts with the name it keeps for raw
/// values. It is a function of the text alone.
#[verifier::external_body]
fn accepts(t: &str) -> (r: bool)
    ensures
        r == json_accepted(t@),
{
    serde_json::from_str::<serde_json::Value>(t).is_ok()
}

/// The value of a JSON text. A text is none if any part of it is none, a member
/// that does not count included.
pub open spec fn parsed(t: Seq<char>) -> Option<JsonView> {
    if json_accepted(t) {
        reading(t, READ_DEPTH as nat)
    } else {
        None
    }
}

/// Reads a JSON text.
pub fn read(t: &str) -> (r: Option<Json>)
    ensures
        value::opt_view(r) == parsed(t@),
{
    if accepts(t) {
        read_to(t, READ_DEPTH)
    } else {
        None
    }
}

} // verus!
