//! JSON texts tell values apart.
use vstd::prelude::*;
use vstd::string::*;
use crate::json;
use crate::json::{FieldView, JsonView};
use crate::registry_laws;
use crate::text;

verus! {

/// A character of a numeral.
pub open spec fn is_numeric(c: char) -> bool {
    text::is_digit(c) || c == '+' || c == '-' || c == '.' || c == 'e' || c == 'E'
}

/// The numeral of a number that is not unsigned: a sign, a fraction or an
/// exponent tells it from one that is.
pub open spec fn is_numeral(t: Seq<char>) -> bool {
    &&& forall|i: int| 0 <= i < t.len() ==> is_numeric(#[trigger] t[i])
    &&& exists|i: int| 0 <= i < t.len() && !text::is_digit(#[trigger] t[i])
}

/// Every number in a value is written as numbers are.
pub open spec fn is_valid(v: JsonView) -> bool
    decreases v,
{
    match v {
        JsonView::Number(t) => is_numeral(t),
        JsonView::List(items) => are_valid(items),
        JsonView::Object(fields) => fields_are_valid(fields),
        _ => true,
    }
}

pub open spec fn are_valid(s: Seq<JsonView>) -> bool
    decreases s,
{
    forall|i: int| 0 <= i < s.len() ==> is_valid(#[trigger] s[i])
}

pub open spec fn fields_are_valid(s: Seq<FieldView>) -> bool
    decreases s,
{
    forall|i: int| 0 <= i < s.len() ==> field_is_valid(#[trigger] s[i])
}

pub open spec fn field_is_valid(f: FieldView) -> bool
    decreases f,
{
    is_valid(f.value)
}

/// What may follow a value.
spec fn ends(t: Seq<char>) -> bool {
    t.len() > 0 ==> t[0] == ',' || t[0] == ']' || t[0] == '}'
}

proof fn lemma_strip(x: Seq<char>, a: Seq<char>, b: Seq<char>)
    requires
        x + a == x + b,
    ensures
        a == b,
{
    assert((x + a).skip(x.len() as int) =~= a);
    assert((x + b).skip(x.len() as int) =~= b);
}

/// Two numerals with what follows them are the same where the wholes are.
proof fn lemma_numerals(x: Seq<char>, y: Seq<char>, a: Seq<char>, b: Seq<char>)
    requires
        forall|i: int| 0 <= i < x.len() ==> is_numeric(#[trigger] x[i]),
        forall|i: int| 0 <= i < y.len() ==> is_numeric(#[trigger] y[i]),
        ends(a),
        ends(b),
        x + a == y + b,
    ensures
        x == y,
        a == b,
{
    if x.len() < y.len() {
        assert((x + a)[x.len() as int] == a[0]);
        assert((y + b)[x.len() as int] == y[x.len() as int]);
        assert((x + a).len() == (y + b).len());
    } else if y.len() < x.len() {
        assert((y + b)[y.len() as int] == b[0]);
        assert((x + a)[y.len() as int] == x[y.len() as int]);
        assert((x + a).len() == (y + b).len());
    }
    assert forall|i: int| 0 <= i < x.len() implies x[i] == y[i] by {
        assert((x + a)[i] == x[i] && (y + b)[i] == y[i]);
    }
    assert(x =~= y);
    lemma_strip(x, a, b);
}

proof fn lemma_hex(n: int, m: int)
    requires
        0 <= n < 16,
        0 <= m < 16,
        json::hex(n) == json::hex(m),
    ensures
        n == m,
{
}

/// An escaped character with what follows it tells which it is.
proof fn lemma_escaped(c: char, d: char, a: Seq<char>, b: Seq<char>)
    requires
        json::escaped(c) + a == json::escaped(d) + b,
    ensures
        c == d,
        a == b,
{
    let x = json::escaped(c);
    let y = json::escaped(d);
    let s = x + a;
    let t = y + b;
    assert(s[0] == x[0] && t[0] == y[0]);
    if x.len() > 1 && y.len() > 1 {
        assert(s[1] == x[1] && t[1] == y[1]);
        if x.len() > 2 && y.len() > 2 {
            assert(s[4] == x[4] && t[4] == y[4]);
            assert(s[5] == x[5] && t[5] == y[5]);
            lemma_hex(c as int / 16, d as int / 16);
            lemma_hex(c as int % 16, d as int % 16);
        }
    }
    assert(c == d);
    lemma_strip(x, a, b);
}

/// A string literal with what follows it tells its text.
proof fn lemma_escaped_texts(x: Seq<char>, y: Seq<char>, a: Seq<char>, b: Seq<char>)
    requires
        json::escaped_text(x) + (seq!['"'] + a) == json::escaped_text(y) + (seq!['"'] + b),
    ensures
        x == y,
        a == b,
    decreases x.len(),
{
    let s = json::escaped_text(x) + (seq!['"'] + a);
    let t = json::escaped_text(y) + (seq!['"'] + b);
    if x.len() == 0 && y.len() == 0 {
        assert(s =~= seq!['"'] + a);
        assert(t =~= seq!['"'] + b);
        lemma_strip(seq!['"'], a, b);
        assert(x =~= y);
    } else if x.len() == 0 {
        assert(s[0] == '"');
        assert(t[0] == json::escaped(y[0])[0]);
    } else if y.len() == 0 {
        assert(t[0] == '"');
        assert(s[0] == json::escaped(x[0])[0]);
    } else {
        let p = json::escaped_text(x.drop_first()) + (seq!['"'] + a);
        let q = json::escaped_text(y.drop_first()) + (seq!['"'] + b);
        assert(s =~= json::escaped(x[0]) + p);
        assert(t =~= json::escaped(y[0]) + q);
        lemma_escaped(x[0], y[0], p, q);
        lemma_escaped_texts(x.drop_first(), y.drop_first(), a, b);
        assert(x =~= seq![x[0]] + x.drop_first());
        assert(y =~= seq![y[0]] + y.drop_first());
    }
}

proof fn lemma_quoted(x: Seq<char>, y: Seq<char>, a: Seq<char>, b: Seq<char>)
    requires
        json::quoted(x) + a == json::quoted(y) + b,
    ensures
        x == y,
        a == b,
{
    let p = json::escaped_text(x) + (seq!['"'] + a);
    let q = json::escaped_text(y) + (seq!['"'] + b);
    assert(json::quoted(x) + a =~= seq!['"'] + p);
    assert(json::quoted(y) + b =~= seq!['"'] + q);
    lemma_strip(seq!['"'], p, q);
    lemma_escaped_texts(x, y, a, b);
}

/// String literals tell texts apart.
pub proof fn law_literals_tell_texts_apart(x: Seq<char>, y: Seq<char>)
    requires
        json::quoted(x) == json::quoted(y),
    ensures
        x == y,
{
    assert(json::quoted(x) + Seq::empty() =~= json::quoted(y) + Seq::empty());
    lemma_quoted(x, y, Seq::empty(), Seq::empty());
}

// ---------- lists and objects, from the front ----------

spec fn more_items(s: Seq<JsonView>) -> Seq<char>
    decreases s.len(),
{
    if s.len() == 0 {
        Seq::empty()
    } else {
        seq![','] + json::json_text(s[0]) + more_items(s.drop_first())
    }
}

proof fn lemma_more_items_last(s: Seq<JsonView>)
    requires
        s.len() > 0,
    ensures
        more_items(s) == more_items(s.drop_last()) + (seq![','] + json::json_text(s.last())),
    decreases s.len(),
{
    if s.len() == 1 {
        assert(s.drop_first() =~= Seq::empty());
        assert(s.drop_last() =~= Seq::empty());
        assert(more_items(s.drop_first()) =~= Seq::empty());
        assert(more_items(s) =~= seq![','] + json::json_text(s[0]));
        assert(more_items(s.drop_last()) =~= Seq::empty());
        assert(more_items(s) =~= more_items(s.drop_last()) + (seq![','] + json::json_text(
            s.last(),
        )));
    } else {
        lemma_more_items_last(s.drop_first());
        assert(s.drop_first().drop_last() =~= s.drop_last().drop_first());
        assert(s.drop_last()[0] == s[0]);
        assert(s.drop_first().last() == s.last());
        assert(more_items(s) =~= more_items(s.drop_last()) + (seq![','] + json::json_text(
            s.last(),
        )));
    }
}

proof fn lemma_items_text(s: Seq<JsonView>)
    requires
        s.len() > 0,
    ensures
        json::items_text(s) == json::json_text(s[0]) + more_items(s.drop_first()),
    decreases s.len(),
{
    reveal_strlit(",");
    assert(","@ =~= seq![',']);
    if s.len() == 1 {
        assert(s.drop_first() =~= Seq::empty());
        assert(json::json_text(s[0]) + more_items(s.drop_first()) =~= json::json_text(s[0]));
    } else {
        let t = s.drop_last();
        lemma_items_text(t);
        assert(t[0] == s[0]);
        lemma_more_items_last(s.drop_first());
        assert(s.drop_first().drop_last() =~= t.drop_first());
        assert(s.drop_first().last() == s.last());
        assert(json::items_text(s) =~= json::json_text(s[0]) + more_items(s.drop_first()));
    }
}

spec fn more_fields(s: Seq<FieldView>) -> Seq<char>
    decreases s.len(),
{
    if s.len() == 0 {
        Seq::empty()
    } else {
        seq![','] + json::field_text(s[0]) + more_fields(s.drop_first())
    }
}

proof fn lemma_more_fields_last(s: Seq<FieldView>)
    requires
        s.len() > 0,
    ensures
        more_fields(s) == more_fields(s.drop_last()) + (seq![','] + json::field_text(s.last())),
    decreases s.len(),
{
    if s.len() == 1 {
        assert(s.drop_first() =~= Seq::empty());
        assert(s.drop_last() =~= Seq::empty());
        assert(more_fields(s.drop_first()) =~= Seq::empty());
        assert(more_fields(s) =~= seq![','] + json::field_text(s[0]));
        assert(more_fields(s.drop_last()) =~= Seq::empty());
        assert(more_fields(s) =~= more_fields(s.drop_last()) + (seq![','] + json::field_text(
            s.last(),
        )));
    } else {
        lemma_more_fields_last(s.drop_first());
        assert(s.drop_first().drop_last() =~= s.drop_last().drop_first());
        assert(s.drop_last()[0] == s[0]);
        assert(s.drop_first().last() == s.last());
        assert(more_fields(s) =~= more_fields(s.drop_last()) + (seq![','] + json::field_text(
            s.last(),
        )));
    }
}

proof fn lemma_fields_text(s: Seq<FieldView>)
    requires
        s.len() > 0,
    ensures
        json::fields_text(s) == json::field_text(s[0]) + more_fields(s.drop_first()),
    decreases s.len(),
{
    reveal_strlit(",");
    assert(","@ =~= seq![',']);
    if s.len() == 1 {
        assert(s.drop_first() =~= Seq::empty());
        assert(json::field_text(s[0]) + more_fields(s.drop_first()) =~= json::field_text(s[0]));
    } else {
        let t = s.drop_last();
        lemma_fields_text(t);
        assert(t[0] == s[0]);
        lemma_more_fields_last(s.drop_first());
        assert(s.drop_first().drop_last() =~= t.drop_first());
        assert(s.drop_first().last() == s.last());
        assert(json::fields_text(s) =~= json::field_text(s[0]) + more_fields(s.drop_first()));
    }
}

// ---------- values ----------

/// The sort of a value by the character that its text begins with.
spec fn mark(v: JsonView) -> char {
    match v {
        JsonView::Null => 'n',
        JsonView::Bool(b) => if b {
            't'
        } else {
            'f'
        },
        JsonView::Unsigned(_) => '0',
        JsonView::Number(_) => '0',
        JsonView::Text(_) => '"',
        JsonView::List(_) => '[',
        JsonView::Object(_) => '{',
    }
}

proof fn lemma_mark(v: JsonView, a: Seq<char>)
    requires
        is_valid(v),
    ensures
        json::json_text(v).len() > 0,
        (json::json_text(v) + a)[0] == json::json_text(v)[0],
        is_numeric(json::json_text(v)[0]) == (mark(v) == '0'),
        mark(v) != '0' ==> json::json_text(v)[0] == mark(v),
{
    reveal_strlit("null");
    reveal_strlit("true");
    reveal_strlit("false");
    reveal_strlit("[");
    reveal_strlit("{");
    match v {
        JsonView::Unsigned(n) => {
            text::lemma_decimal(n as nat);
        },
        _ => {},
    }
}

/// The text of a value with what follows it tells the value.
#[verifier::rlimit(40)]
proof fn lemma_texts(v: JsonView, w: JsonView, a: Seq<char>, b: Seq<char>)
    requires
        is_valid(v),
        is_valid(w),
        ends(a),
        ends(b),
        json::json_text(v) + a == json::json_text(w) + b,
    ensures
        v == w,
        a == b,
    decreases v,
{
    lemma_mark(v, a);
    lemma_mark(w, b);
    assert(mark(v) == mark(w));
    match v {
        JsonView::Null => {
            lemma_strip("null"@, a, b);
        },
        JsonView::Bool(x) => {
            if x {
                lemma_strip("true"@, a, b);
            } else {
                lemma_strip("false"@, a, b);
            }
        },
        JsonView::Unsigned(n) => {
            text::lemma_decimal(n as nat);
            lemma_numbers(v, w, a, b);
        },
        JsonView::Number(t) => {
            lemma_numbers(v, w, a, b);
        },
        JsonView::Text(t) => {
            lemma_quoted(t, w->Text_0, a, b);
        },
        JsonView::List(s) => {
            let t = w->List_0;
            reveal_strlit("[");
            reveal_strlit("]");
            assert("["@ =~= seq!['[']);
            assert("]"@ =~= seq![']']);
            let p = json::items_text(s) + (seq![']'] + a);
            let q = json::items_text(t) + (seq![']'] + b);
            assert(json::json_text(v) + a =~= seq!['['] + p);
            assert(json::json_text(w) + b =~= seq!['['] + q);
            lemma_strip(seq!['['], p, q);
            lemma_item_texts(s, t, a, b);
        },
        JsonView::Object(s) => {
            let t = w->Object_0;
            reveal_strlit("{");
            reveal_strlit("}");
            assert("{"@ =~= seq!['{']);
            assert("}"@ =~= seq!['}']);
            let p = json::fields_text(s) + (seq!['}'] + a);
            let q = json::fields_text(t) + (seq!['}'] + b);
            assert(json::json_text(v) + a =~= seq!['{'] + p);
            assert(json::json_text(w) + b =~= seq!['{'] + q);
            lemma_strip(seq!['{'], p, q);
            lemma_field_texts(s, t, a, b);
        },
    }
}

proof fn lemma_numbers(v: JsonView, w: JsonView, a: Seq<char>, b: Seq<char>)
    requires
        is_valid(v),
        is_valid(w),
        mark(v) == '0',
        mark(w) == '0',
        ends(a),
        ends(b),
        json::json_text(v) + a == json::json_text(w) + b,
    ensures
        v == w,
        a == b,
{
    if v is Unsigned {
        text::lemma_decimal(v->Unsigned_0 as nat);
    }
    if w is Unsigned {
        text::lemma_decimal(w->Unsigned_0 as nat);
    }
    lemma_numerals(json::json_text(v), json::json_text(w), a, b);
}

proof fn lemma_item_texts(s: Seq<JsonView>, t: Seq<JsonView>, a: Seq<char>, b: Seq<char>)
    requires
        are_valid(s),
        are_valid(t),
        json::items_text(s) + (seq![']'] + a) == json::items_text(t) + (seq![']'] + b),
    ensures
        s == t,
        a == b,
    decreases s,
{
    let p = seq![']'] + a;
    let q = seq![']'] + b;
    if s.len() > 0 {
        lemma_items_text(s);
        lemma_mark(s[0], Seq::empty());
        assert(json::items_text(s)[0] == json::json_text(s[0])[0]);
        assert((json::items_text(s) + p)[0] == json::json_text(s[0])[0]);
    }
    if t.len() > 0 {
        lemma_items_text(t);
        lemma_mark(t[0], Seq::empty());
        assert(json::items_text(t)[0] == json::json_text(t[0])[0]);
        assert((json::items_text(t) + q)[0] == json::json_text(t[0])[0]);
    }
    if s.len() == 0 && t.len() == 0 {
        assert(json::items_text(s) + p =~= p);
        assert(json::items_text(t) + q =~= q);
        lemma_strip(seq![']'], a, b);
        assert(s =~= t);
    } else if s.len() == 0 {
        assert((json::items_text(s) + p)[0] == ']');
    } else if t.len() == 0 {
        assert((json::items_text(t) + q)[0] == ']');
    } else {
        let x = more_items(s.drop_first()) + p;
        let y = more_items(t.drop_first()) + q;
        assert(json::items_text(s) + p =~= json::json_text(s[0]) + x);
        assert(json::items_text(t) + q =~= json::json_text(t[0]) + y);
        lemma_texts(s[0], t[0], x, y);
        lemma_more_items(s.drop_first(), t.drop_first(), a, b);
        assert(s =~= seq![s[0]] + s.drop_first());
        assert(t =~= seq![t[0]] + t.drop_first());
    }
}

proof fn lemma_more_items(s: Seq<JsonView>, t: Seq<JsonView>, a: Seq<char>, b: Seq<char>)
    requires
        are_valid(s),
        are_valid(t),
        more_items(s) + (seq![']'] + a) == more_items(t) + (seq![']'] + b),
    ensures
        s == t,
        a == b,
    decreases s,
{
    let p = seq![']'] + a;
    let q = seq![']'] + b;
    if s.len() == 0 && t.len() == 0 {
        assert(more_items(s) + p =~= p);
        assert(more_items(t) + q =~= q);
        lemma_strip(seq![']'], a, b);
        assert(s =~= t);
    } else if s.len() == 0 {
        assert((more_items(s) + p)[0] == ']');
        assert((more_items(t) + q)[0] == ',');
    } else if t.len() == 0 {
        assert((more_items(t) + q)[0] == ']');
        assert((more_items(s) + p)[0] == ',');
    } else {
        let x = more_items(s.drop_first()) + p;
        let y = more_items(t.drop_first()) + q;
        assert(more_items(s) + p =~= seq![','] + (json::json_text(s[0]) + x));
        assert(more_items(t) + q =~= seq![','] + (json::json_text(t[0]) + y));
        lemma_strip(seq![','], json::json_text(s[0]) + x, json::json_text(t[0]) + y);
        lemma_texts(s[0], t[0], x, y);
        lemma_more_items(s.drop_first(), t.drop_first(), a, b);
        assert(s =~= seq![s[0]] + s.drop_first());
        assert(t =~= seq![t[0]] + t.drop_first());
    }
}

proof fn lemma_fields(f: FieldView, g: FieldView, a: Seq<char>, b: Seq<char>)
    requires
        field_is_valid(f),
        field_is_valid(g),
        ends(a),
        ends(b),
        json::field_text(f) + a == json::field_text(g) + b,
    ensures
        f == g,
        a == b,
    decreases f,
{
    reveal_strlit(":");
    assert(":"@ =~= seq![':']);
    let x = json::json_text(f.value) + a;
    let y = json::json_text(g.value) + b;
    assert(json::field_text(f) + a =~= json::quoted(f.name) + (seq![':'] + x));
    assert(json::field_text(g) + b =~= json::quoted(g.name) + (seq![':'] + y));
    lemma_quoted(f.name, g.name, seq![':'] + x, seq![':'] + y);
    lemma_strip(seq![':'], x, y);
    lemma_texts(f.value, g.value, a, b);
}

proof fn lemma_field_texts(s: Seq<FieldView>, t: Seq<FieldView>, a: Seq<char>, b: Seq<char>)
    requires
        fields_are_valid(s),
        fields_are_valid(t),
        json::fields_text(s) + (seq!['}'] + a) == json::fields_text(t) + (seq!['}'] + b),
    ensures
        s == t,
        a == b,
    decreases s,
{
    let p = seq!['}'] + a;
    let q = seq!['}'] + b;
    if s.len() > 0 {
        lemma_fields_text(s);
        assert(json::field_text(s[0])[0] == '"');
        assert((json::fields_text(s) + p)[0] == '"');
    }
    if t.len() > 0 {
        lemma_fields_text(t);
        assert(json::field_text(t[0])[0] == '"');
        assert((json::fields_text(t) + q)[0] == '"');
    }
    if s.len() == 0 && t.len() == 0 {
        assert(json::fields_text(s) + p =~= p);
        assert(json::fields_text(t) + q =~= q);
        lemma_strip(seq!['}'], a, b);
        assert(s =~= t);
    } else if s.len() == 0 {
        assert((json::fields_text(s) + p)[0] == '}');
    } else if t.len() == 0 {
        assert((json::fields_text(t) + q)[0] == '}');
    } else {
        let x = more_fields(s.drop_first()) + p;
        let y = more_fields(t.drop_first()) + q;
        assert(json::fields_text(s) + p =~= json::field_text(s[0]) + x);
        assert(json::fields_text(t) + q =~= json::field_text(t[0]) + y);
        lemma_fields(s[0], t[0], x, y);
        lemma_more_fields(s.drop_first(), t.drop_first(), a, b);
        assert(s =~= seq![s[0]] + s.drop_first());
        assert(t =~= seq![t[0]] + t.drop_first());
    }
}

proof fn lemma_more_fields(s: Seq<FieldView>, t: Seq<FieldView>, a: Seq<char>, b: Seq<char>)
    requires
        fields_are_valid(s),
        fields_are_valid(t),
        more_fields(s) + (seq!['}'] + a) == more_fields(t) + (seq!['}'] + b),
    ensures
        s == t,
        a == b,
    decreases s,
{
    let p = seq!['}'] + a;
    let q = seq!['}'] + b;
    if s.len() == 0 && t.len() == 0 {
        assert(more_fields(s) + p =~= p);
        assert(more_fields(t) + q =~= q);
        lemma_strip(seq!['}'], a, b);
        assert(s =~= t);
    } else if s.len() == 0 {
        assert((more_fields(s) + p)[0] == '}');
        assert((more_fields(t) + q)[0] == ',');
    } else if t.len() == 0 {
        assert((more_fields(t) + q)[0] == '}');
        assert((more_fields(s) + p)[0] == ',');
    } else {
        let x = more_fields(s.drop_first()) + p;
        let y = more_fields(t.drop_first()) + q;
        assert(more_fields(s) + p =~= seq![','] + (json::field_text(s[0]) + x));
        assert(more_fields(t) + q =~= seq![','] + (json::field_text(t[0]) + y));
        lemma_strip(seq![','], json::field_text(s[0]) + x, json::field_text(t[0]) + y);
        lemma_fields(s[0], t[0], x, y);
        lemma_more_fields(s.drop_first(), t.drop_first(), a, b);
        assert(s =~= seq![s[0]] + s.drop_first());
        assert(t =~= seq![t[0]] + t.drop_first());
    }
}

/// JSON texts tell values apart: two values with the same text are the same.
pub proof fn law_texts_tell_values_apart(v: JsonView, w: JsonView)
    requires
        is_valid(v),
        is_valid(w),
        json::json_text(v) == json::json_text(w),
    ensures
        v == w,
{
    assert(json::json_text(v) + Seq::empty() =~= json::json_text(w) + Seq::empty());
    lemma_texts(v, w, Seq::empty(), Seq::empty());
}

// ---------- sorted objects ----------

proof fn lemma_normal_items(s: Seq<JsonView>)
    ensures
        json::normal_items(s).len() == s.len(),
        forall|i: int|
            0 <= i < s.len() ==> #[trigger] json::normal_items(s)[i] == json::normal(s[i]),
    decreases s.len(),
{
    if s.len() > 0 {
        lemma_normal_items(s.drop_last());
        assert forall|i: int| 0 <= i < s.len() implies #[trigger] json::normal_items(s)[i]
            == json::normal(s[i]) by {
            if i < s.len() - 1 {
                assert(s.drop_last()[i] == s[i]);
                assert(json::normal_items(s)[i] == json::normal_items(s.drop_last())[i]);
            }
        }
    }
}

/// Sorted lists are sorted item by item.
pub proof fn lemma_sorted_items(s: Seq<JsonView>, t: Seq<JsonView>)
    requires
        json::normal(JsonView::List(s)) == json::normal(JsonView::List(t)),
    ensures
        s.len() == t.len(),
        forall|i: int|
            0 <= i < s.len() ==> json::normal(#[trigger] s[i]) == json::normal(t[i]),
{
    lemma_normal_items(s);
    lemma_normal_items(t);
    assert forall|i: int| 0 <= i < s.len() implies json::normal(#[trigger] s[i])
        == json::normal(t[i]) by {
        assert(json::normal_items(s)[i] == json::normal_items(t)[i]);
    }
}

proof fn lemma_normal_fields(s: Seq<FieldView>)
    ensures
        json::normal_fields(s).len() == s.len(),
        forall|i: int|
            0 <= i < s.len() ==> (#[trigger] json::normal_fields(s)[i]).name == s[i].name
                && json::normal_fields(s)[i].value == json::normal(s[i].value),
    decreases s.len(),
{
    if s.len() > 0 {
        lemma_normal_fields(s.drop_last());
        assert forall|i: int| 0 <= i < s.len() implies (#[trigger] json::normal_fields(
            s,
        )[i]).name == s[i].name && json::normal_fields(s)[i].value == json::normal(
            s[i].value,
        ) by {
            if i < s.len() - 1 {
                assert(s.drop_last()[i] == s[i]);
                assert(json::normal_fields(s)[i] == json::normal_fields(s.drop_last())[i]);
            }
        }
    }
}

proof fn lemma_given(s: Seq<FieldView>, k: int)
    requires
        0 <= k < s.len(),
        forall|i: int| k < i < s.len() ==> (#[trigger] s[i]).name != s[k].name,
    ensures
        registry_laws::last_given(s, s[k].name) == Some(s[k].value),
    decreases s.len(),
{
    if k < s.len() - 1 {
        let t = s.drop_last();
        assert(s[s.len() - 1] == s.last());
        assert(t[k] == s[k]);
        assert forall|i: int| k < i < t.len() implies (#[trigger] t[i]).name != t[k].name by {
            assert(t[i] == s[i]);
        }
        lemma_given(t, k);
    }
}

/// Objects with the same names, each once, that are the same when sorted have
/// values that are.
pub proof fn lemma_sorted_member(f: Seq<FieldView>, g: Seq<FieldView>, k: int)
    requires
        f.len() == g.len(),
        0 <= k < f.len(),
        forall|i: int| 0 <= i < f.len() ==> (#[trigger] f[i]).name == g[i].name,
        forall|i: int| k < i < f.len() ==> (#[trigger] f[i]).name != f[k].name,
        json::normal(JsonView::Object(f)) == json::normal(JsonView::Object(g)),
    ensures
        json::normal(f[k].value) == json::normal(g[k].value),
{
    let x = json::normal_fields(f);
    let y = json::normal_fields(g);
    let name = f[k].name;
    lemma_normal_fields(f);
    lemma_normal_fields(g);
    assert(x[k].name == name && y[k].name == name);
    assert forall|i: int| k < i < x.len() implies (#[trigger] x[i]).name != x[k].name by {
        assert(f[i].name != f[k].name);
    }
    assert forall|i: int| k < i < y.len() implies (#[trigger] y[i]).name != y[k].name by {
        assert(f[i].name == g[i].name);
        assert(f[i].name != f[k].name);
    }
    lemma_given(x, k);
    lemma_given(y, k);
    registry_laws::law_overlay_merge_is_shallow(Seq::empty(), x, name);
    registry_laws::law_overlay_merge_is_shallow(Seq::empty(), y, name);
    assert(json::merged(Seq::empty(), x) == json::merged(Seq::empty(), y));
}

pub proof fn lemma_sorted1(a: FieldView, x: FieldView)
    requires
        json::normal(JsonView::Object(json::fields1(a))) == json::normal(
            JsonView::Object(json::fields1(x)),
        ),
    ensures
        a.name == x.name,
        json::normal(a.value) == json::normal(x.value),
{
    let f = json::fields1(a);
    let g = json::fields1(x);
    assert(f[0] == a && g[0] == x);
    lemma_normal_fields(f);
    lemma_normal_fields(g);
    lemma_given(json::normal_fields(f), 0);
    registry_laws::law_overlay_merge_is_shallow(Seq::empty(), json::normal_fields(f), a.name);
    registry_laws::law_overlay_merge_is_shallow(Seq::empty(), json::normal_fields(g), a.name);
    assert(json::normal_fields(g).drop_last() =~= Seq::empty());
    assert(registry_laws::last_given(json::normal_fields(g).drop_last(), a.name) is None);
    lemma_sorted_member(f, g, 0);
}

pub proof fn lemma_sorted2(a: FieldView, b: FieldView, x: FieldView, y: FieldView)
    requires
        a.name == x.name,
        b.name == y.name,
        a.name != b.name,
        json::normal(JsonView::Object(json::fields2(a, b))) == json::normal(
            JsonView::Object(json::fields2(x, y)),
        ),
    ensures
        json::normal(a.value) == json::normal(x.value),
        json::normal(b.value) == json::normal(y.value),
{
    let f = json::fields2(a, b);
    let g = json::fields2(x, y);
    assert(f[0] == a && f[1] == b && g[0] == x && g[1] == y);
    lemma_sorted_member(f, g, 0);
    lemma_sorted_member(f, g, 1);
}

pub proof fn lemma_sorted3(
    a: FieldView,
    b: FieldView,
    c: FieldView,
    x: FieldView,
    y: FieldView,
    z: FieldView,
)
    requires
        a.name == x.name,
        b.name == y.name,
        c.name == z.name,
        a.name != b.name,
        a.name != c.name,
        b.name != c.name,
        json::normal(JsonView::Object(json::fields3(a, b, c))) == json::normal(
            JsonView::Object(json::fields3(x, y, z)),
        ),
    ensures
        json::normal(a.value) == json::normal(x.value),
        json::normal(b.value) == json::normal(y.value),
        json::normal(c.value) == json::normal(z.value),
{
    let f = json::fields3(a, b, c);
    let g = json::fields3(x, y, z);
    assert(f[0] == a && f[1] == b && f[2] == c && g[0] == x && g[1] == y && g[2] == z);
    lemma_sorted_member(f, g, 0);
    lemma_sorted_member(f, g, 1);
    lemma_sorted_member(f, g, 2);
}

pub proof fn lemma_sorted5(
    s: (FieldView, FieldView, FieldView, FieldView, FieldView),
    t: (FieldView, FieldView, FieldView, FieldView, FieldView),
)
    requires
        s.0.name == t.0.name,
        s.1.name == t.1.name,
        s.2.name == t.2.name,
        s.3.name == t.3.name,
        s.4.name == t.4.name,
        s.0.name != s.1.name && s.0.name != s.2.name && s.0.name != s.3.name && s.0.name
            != s.4.name,
        s.1.name != s.2.name && s.1.name != s.3.name && s.1.name != s.4.name,
        s.2.name != s.3.name && s.2.name != s.4.name,
        s.3.name != s.4.name,
        json::normal(JsonView::Object(json::fields5(s.0, s.1, s.2, s.3, s.4))) == json::normal(
            JsonView::Object(json::fields5(t.0, t.1, t.2, t.3, t.4)),
        ),
    ensures
        json::normal(s.0.value) == json::normal(t.0.value),
        json::normal(s.1.value) == json::normal(t.1.value),
        json::normal(s.2.value) == json::normal(t.2.value),
        json::normal(s.3.value) == json::normal(t.3.value),
        json::normal(s.4.value) == json::normal(t.4.value),
{
    let f = json::fields5(s.0, s.1, s.2, s.3, s.4);
    let g = json::fields5(t.0, t.1, t.2, t.3, t.4);
    assert(f[0] == s.0 && f[1] == s.1 && f[2] == s.2 && f[3] == s.3 && f[4] == s.4);
    assert(g[0] == t.0 && g[1] == t.1 && g[2] == t.2 && g[3] == t.3 && g[4] == t.4);
    lemma_sorted_member(f, g, 0);
    lemma_sorted_member(f, g, 1);
    lemma_sorted_member(f, g, 2);
    lemma_sorted_member(f, g, 3);
    lemma_sorted_member(f, g, 4);
}

/// A member is the value of the first field of its name, and a value that is no
/// object has no members.
pub proof fn law_members_are_found_by_name(fields: Seq<FieldView>, f: FieldView, name: Seq<char>, v: JsonView)
    ensures
        json::member(JsonView::Object(Seq::empty()), name) is None,
        f.name == name ==> json::member(JsonView::Object(seq![f] + fields), name) == Some(f.value),
        f.name != name ==> json::member(JsonView::Object(seq![f] + fields), name) == json::member(
            JsonView::Object(fields),
            name,
        ),
        !(v is Object) ==> json::member(v, name) is None,
        json::text_member(v, name) is Some <==> json::member(v, name) is Some && json::member(
            v,
            name,
        )->0 is Text,
        json::text_member(v, name) is Some ==> json::member(v, name) == Some(
            JsonView::Text(json::text_member(v, name)->0),
        ),
        json::unsigned_member(v, name) is Some <==> json::member(v, name) is Some && json::member(
            v,
            name,
        )->0 is Unsigned,
        json::unsigned_member(v, name) is Some ==> json::member(v, name) == Some(
            JsonView::Unsigned(json::unsigned_member(v, name)->0),
        ),
{
    assert((seq![f] + fields).drop_first() =~= fields);
}

/// Sorting an object loses nothing: every name keeps the last value given for
/// it, itself sorted; lists keep their items in order, and everything else stays.
pub proof fn law_sorting_keeps_every_member(
    fields: Seq<FieldView>,
    f: FieldView,
    name: Seq<char>,
    items: Seq<JsonView>,
    i: int,
    v: JsonView,
)
    requires
        0 <= i < items.len(),
    ensures
        json::normal(JsonView::Object(Seq::empty())) == JsonView::Object(Seq::empty()),
        json::member(json::normal(JsonView::Object(fields.push(f))), f.name) == Some(
            json::normal(f.value),
        ),
        name != f.name ==> json::member(json::normal(JsonView::Object(fields.push(f))), name)
            == json::member(json::normal(JsonView::Object(fields)), name),
        json::normal(JsonView::List(items)) is List,
        json::normal(JsonView::List(items))->List_0.len() == items.len(),
        json::normal(JsonView::List(items))->List_0[i] == json::normal(items[i]),
        !(v is List) && !(v is Object) ==> json::normal(v) == v,
{
    let s = fields.push(f);
    assert(s.drop_last() =~= fields);
    let g = FieldView { name: f.name, value: json::normal(f.value) };
    let a = json::normal_fields(fields);
    assert(json::normal_fields(s) == a.push(g));
    assert(a.push(g).drop_last() =~= a);
    let base = json::merged(Seq::empty(), a);
    assert(json::merged(Seq::empty(), json::normal_fields(s)) == json::set_field(base, g));
    registry_laws::lemma_set_field(base, g, f.name);
    registry_laws::lemma_set_field(base, g, name);
    lemma_normal_items(items);
    assert(json::normal_items(items)[i] == json::normal(items[i]));
    assert(json::normal_fields(Seq::empty()) =~= Seq::empty());
}

/// A value is written compactly: words for null and the truth values, numerals
/// for numbers, literals for texts, and lists and objects part by part with
/// commas between.
pub proof fn law_values_are_written_compactly(
    n: u64,
    t: Seq<char>,
    items: Seq<JsonView>,
    x: JsonView,
    fields: Seq<FieldView>,
    f: FieldView,
)
    ensures
        json::json_text(JsonView::Null) == "null"@,
        json::json_text(JsonView::Bool(true)) == "true"@,
        json::json_text(JsonView::Bool(false)) == "false"@,
        json::json_text(JsonView::Unsigned(n)) == text::decimal(n as nat),
        json::json_text(JsonView::Number(t)) == t,
        json::json_text(JsonView::Text(t)) == json::quoted(t),
        json::json_text(JsonView::List(Seq::empty())) == "["@ + "]"@,
        json::json_text(JsonView::List(seq![x])) == "["@ + json::json_text(x) + "]"@,
        items.len() > 0 ==> "["@ + json::items_text(items.push(x)) + "]"@ == "["@
            + json::items_text(items) + ","@ + json::json_text(x) + "]"@,
        json::json_text(JsonView::Object(seq![f])) == "{"@ + (json::quoted(f.name) + ":"@
            + json::json_text(f.value)) + "}"@,
        fields.len() > 0 ==> json::fields_text(fields.push(f)) == json::fields_text(fields) + ","@
            + (json::quoted(f.name) + ":"@ + json::json_text(f.value)),
{
    assert(json::items_text(Seq::empty()) =~= Seq::empty());
    assert(json::json_text(JsonView::List(Seq::empty())) =~= "["@ + "]"@);
    assert(items.push(x).drop_last() =~= items);
    assert(fields.push(f).drop_last() =~= fields);
    if items.len() > 0 {
        assert("["@ + json::items_text(items.push(x)) + "]"@ =~= "["@ + json::items_text(items)
            + ","@ + json::json_text(x) + "]"@);
    }
    assert(json::field_text(f) == json::quoted(f.name) + ":"@ + json::json_text(f.value));
    if fields.len() > 0 {
        assert(fields.push(f).last() == f);
        assert(json::fields_text(fields.push(f)) == json::fields_text(fields) + ","@
            + json::field_text(f));
    }
}

/// A literal escapes quotes, backslashes and control characters and nothing
/// else: no control character stands in it, and a text without any of these
/// stands in it as it is.
pub proof fn law_literals_hold_no_control_characters(t: Seq<char>, i: int)
    ensures
        0 <= i < json::quoted(t).len() ==> json::quoted(t)[i] as int >= 32,
        (forall|j: int|
            0 <= j < t.len() ==> (#[trigger] t[j]) as int >= 32 && t[j] != '"' && t[j] != '\\')
            ==> json::quoted(t) == seq!['"'] + t + seq!['"'],
{
    lemma_escaped_visible(t);
    lemma_escaped_plain(t);
    let e = json::escaped_text(t);
    if 0 <= i < json::quoted(t).len() {
        if 0 < i < e.len() + 1 {
            assert(json::quoted(t)[i] == e[i - 1]);
        }
    }
}

proof fn lemma_visible(c: char)
    ensures
        forall|j: int| 0 <= j < json::escaped(c).len() ==> (#[trigger] json::escaped(c)[j]) as int >= 32,
{
    let e = json::escaped(c);
    if e.len() == 6 {
        let n = c as int;
        assert(json::hex(n / 16) as int >= 32);
        assert(json::hex(n % 16) as int >= 32);
    }
    assert forall|j: int| 0 <= j < e.len() implies (#[trigger] e[j]) as int >= 32 by {
        if e.len() == 6 {
            assert(j == 0 || j == 1 || j == 2 || j == 3 || j == 4 || j == 5);
        }
    }
}

proof fn lemma_escaped_visible(t: Seq<char>)
    ensures
        forall|j: int|
            0 <= j < json::escaped_text(t).len() ==> (#[trigger] json::escaped_text(t)[j]) as int
                >= 32,
    decreases t.len(),
{
    if t.len() > 0 {
        lemma_escaped_visible(t.drop_first());
        let a = json::escaped(t[0]);
        let b = json::escaped_text(t.drop_first());
        lemma_visible(t[0]);
        assert forall|j: int| 0 <= j < json::escaped_text(t).len() implies (
        #[trigger] json::escaped_text(t)[j]) as int >= 32 by {
            if j < a.len() {
                assert(json::escaped_text(t)[j] == a[j]);
            } else {
                assert(json::escaped_text(t)[j] == b[j - a.len()]);
            }
        }
    }
}

proof fn lemma_escaped_plain(t: Seq<char>)
    ensures
        (forall|j: int|
            0 <= j < t.len() ==> (#[trigger] t[j]) as int >= 32 && t[j] != '"' && t[j] != '\\')
            ==> json::escaped_text(t) == t,
    decreases t.len(),
{
    if t.len() > 0 && forall|j: int|
        0 <= j < t.len() ==> (#[trigger] t[j]) as int >= 32 && t[j] != '"' && t[j] != '\\' {
        let u = t.drop_first();
        assert forall|j: int| 0 <= j < u.len() implies (#[trigger] u[j]) as int >= 32 && u[j] != '"'
            && u[j] != '\\' by {
            assert(u[j] == t[j + 1]);
        }
        lemma_escaped_plain(u);
        assert(t[0] as int >= 32);
        assert(json::escaped_text(t) =~= t);
    }
}

proof fn lemma_items_read(s: Seq<Seq<char>>, depth: nat)
    ensures
        json::items_reading(s, depth) matches Some(list) ==> list.len() == s.len() && forall|
            i: int,
        |
            0 <= i < s.len() ==> json::reading(s[i], depth) == Some(#[trigger] list[i]),
    decreases s.len(),
{
    if s.len() > 0 {
        lemma_items_read(s.drop_last(), depth);
        if let Some(list) = json::items_reading(s, depth) {
            let rest = json::items_reading(s.drop_last(), depth)->0;
            assert forall|i: int| 0 <= i < s.len() implies json::reading(s[i], depth) == Some(
                #[trigger] list[i],
            ) by {
                if i < rest.len() {
                    assert(list[i] == rest[i]);
                    assert(s.drop_last()[i] == s[i]);
                }
            }
        }
    }
}

proof fn lemma_fields_read(s: Seq<(Seq<char>, Seq<char>)>, depth: nat)
    ensures
        json::fields_reading(s, depth) matches Some(all) ==> all.len() == s.len() && forall|i: int|
            0 <= i < s.len() ==> (#[trigger] all[i]).name == s[i].0 && json::reading(s[i].1, depth)
                == Some(all[i].value),
    decreases s.len(),
{
    if s.len() > 0 {
        lemma_fields_read(s.drop_last(), depth);
        if let Some(all) = json::fields_reading(s, depth) {
            let rest = json::fields_reading(s.drop_last(), depth)->0;
            assert forall|i: int| 0 <= i < s.len() implies (#[trigger] all[i]).name == s[i].0
                && json::reading(s[i].1, depth) == Some(all[i].value) by {
                if i < rest.len() {
                    assert(all[i] == rest[i]);
                    assert(s.drop_last()[i] == s[i]);
                }
            }
        }
    }
}

/// A text is read part by part: a list has every item that stands in it, in
/// order, an object every member under its name, and anything else is the
/// scalar it denotes. What is not accepted as a whole is not read at all.
pub proof fn law_texts_are_read_part_by_part(t: Seq<char>, i: int)
    ensures
        json::parsed(t) is Some ==> json::json_accepted(t),
        json::parsed(t) matches Some(JsonView::List(list)) ==> (json::json_items(
            t,
        ) matches Some(items) && items.len() == list.len() && (0 <= i < items.len()
            ==> json::reading(items[i], 127) == Some(list[i]))),
        json::parsed(t) matches Some(JsonView::Object(all)) ==> (json::json_members(
            t,
        ) matches Some(members) && members.len() == all.len() && (0 <= i < members.len()
            ==> members[i].0 == all[i].name && json::reading(members[i].1, 127) == Some(
            all[i].value,
        ))),
        json::parsed(t) matches Some(JsonView::Text(x)) ==> json::json_scalar(t) == Some(
            json::ScalarView::Text(x),
        ),
        json::parsed(t) matches Some(JsonView::Bool(b)) ==> json::json_scalar(t) == Some(
            json::ScalarView::Bool(b),
        ),
        json::parsed(t) == Some(JsonView::Null) ==> json::json_scalar(t) == Some(
            json::ScalarView::Null,
        ),
{
    if let Some(items) = json::json_items(t) {
        lemma_items_read(items, 127);
    }
    if let Some(members) = json::json_members(t) {
        lemma_fields_read(members, 127);
    }
}

/// A numeral without sign, fraction or exponent is the unsigned number it
/// counts to; any other is kept as it is written.
pub proof fn law_numerals_become_numbers(n: u64, t: Seq<char>, c: char, s: Seq<char>)
    ensures
        json::number_json(text::decimal(n as nat)) == JsonView::Unsigned(n),
        text::number_in(t) is None ==> json::number_json(t) == JsonView::Number(t),
        c == ' ' || c == '\t' || c == '\n' || c == '\r' ==> json::opening(seq![c] + s)
            == json::opening(s),
        c != ' ' && c != '\t' && c != '\n' && c != '\r' ==> json::opening(seq![c] + s) == Some(c),
        json::opening(Seq::empty()) is None,
{
    text::law_numerals_are_read_back(n, n);
    assert((seq![c] + s).drop_first() =~= s);
}

} // verus!
