//! The built-in config layer: the lowest one, which publishes the default
//! settings and key bindings.
use vstd::prelude::*;
use vstd::string::*;
use vstd::utf8::*;
use crate::ids::Id128;
use crate::package::{ModuleOrigin, PackageManifest, PackageManifestView, TrustClass};
use crate::services::ScopePath;
use crate::value;

verus! {

broadcast use value::group_views;

/// The source of the built-in layer. Its top level is pure: it runs twice.
pub const BUILTIN_CONFIG_SOURCE: &'static str = r#"-- kanbei built-in config defaults (decision 28).
-- Lowest-precedence desired-state layer: publishes default settings and the
-- built-in keybinding layer (decision 29).
function kb_on_activate(ctx)
  ctx.contribution_publish(
    '{"kind":"settings",' ..
    '"provider":{"protocol":"openai"},' ..
    '"approval":{"auto_approve":false,"yolo":false}}')
  -- Decision 29: the built-in layer ships the kernel's default bindings so
  -- making Ctrl-C/Ctrl-Q/Ctrl-L remappable does not drop run cancellation,
  -- quit, or repaint out of the box. Origin is kernel-stamped as `builtin`.
  -- The approval gate is a modal context (decision 8): y/n decide the parked
  -- approval through the same keymap path as every key, and Ctrl-C denies it
  -- (the modal deny outranks the always cancel_run), so no ad-hoc key mapping
  -- is needed.
  ctx.contribution_publish(
    '{"kind":"keymap","bindings":[' ..
    '{"key":"ctrl-c","context":"always","action":"cancel_run"},' ..
    '{"key":"ctrl-q","context":"always","action":"quit"},' ..
    '{"key":"ctrl-l","context":"always","action":"repaint"},' ..
    '{"key":"y","context":"modal","action":"approve"},' ..
    '{"key":"Y","context":"modal","action":"approve"},' ..
    '{"key":"n","context":"modal","action":"deny"},' ..
    '{"key":"N","context":"modal","action":"deny"},' ..
    '{"key":"ctrl-c","context":"modal","action":"deny"}]}')
end

function kb_hot(dispatch)
  return dispatch
end
"#;

/// The scope that every config layer contributes to.
pub fn root_scope() -> (r: ScopePath)
    ensures
        r@ == Seq::<Seq<char>>::empty(),
{
    let r = ScopePath(Vec::new());
    assert(r@ =~= Seq::empty());
    r
}

// ---------- identities ----------

/// The bytes of an identity made from a digest: a high byte from one to
/// seven, and the version and variant of a time-ordered identifier.
pub open spec fn shaped(b: Seq<u8>) -> Seq<u8> {
    b.update(0, (b[0] & 0x07) | 0x01).update(6, (b[6] & 0x0f) | 0x70).update(
        8,
        (b[8] & 0x3f) | 0x80,
    )
}

/// Shapes the first sixteen bytes of a digest into an identity.
pub fn shape_id(digest: [u8; 16]) -> (r: [u8; 16])
    ensures
        r@ == shaped(digest@),
{
    let mut b = digest;
    b[0] = (b[0] & 0x07) | 0x01;
    b[6] = (b[6] & 0x0f) | 0x70;
    b[8] = (b[8] & 0x3f) | 0x80;
    assert(b@ =~= shaped(digest@));
    b
}

/// The number that bytes stand for, most significant first.
pub open spec fn number_of(b: Seq<u8>) -> nat
    decreases b.len(),
{
    if b.len() == 0 {
        0
    } else {
        number_of(b.drop_last()) * 256 + b.last() as nat
    }
}

/// `256` to the power `n`.
pub open spec fn pow256(n: nat) -> nat
    decreases n,
{
    if n == 0 {
        1
    } else {
        256 * pow256((n - 1) as nat)
    }
}

/// `58` to the power `n`.
pub open spec fn pow58(n: nat) -> nat
    decreases n,
{
    if n == 0 {
        1
    } else {
        58 * pow58((n - 1) as nat)
    }
}

proof fn lemma_number_bounds(b: Seq<u8>)
    requires
        b.len() > 0,
    ensures
        b[0] * pow256((b.len() - 1) as nat) <= number_of(b) < (b[0] + 1) * pow256(
            (b.len() - 1) as nat,
        ),
    decreases b.len(),
{
    let n = b.len();
    if n == 1 {
        assert(b.drop_last() =~= Seq::empty());
        assert(number_of(b.drop_last()) == 0);
        let x = b[0] as int;
        let q = pow256(0) as int;
        assert(x * q == x && (x + 1) * q == x + 1) by (nonlinear_arith)
            requires
                q == 1,
        ;
    } else {
        let t = b.drop_last();
        lemma_number_bounds(t);
        assert(t[0] == b[0]);
        let p = pow256((n - 2) as nat);
        let q = pow256((n - 1) as nat);
        let x = b[0] as int;
        let v = number_of(t) as int;
        let last = b.last() as int;
        assert(q == 256 * p);
        assert(x * q == 256 * (x * p)) by (nonlinear_arith)
            requires
                q == 256 * p,
        ;
        assert((x + 1) * q == 256 * ((x + 1) * p)) by (nonlinear_arith)
            requires
                q == 256 * p,
        ;
    }
}

proof fn lemma_powers()
    ensures
        pow58(20) <= pow256(15),
        8 * pow256(15) <= pow58(21),
{
    reveal_with_fuel(pow58, 22);
    reveal_with_fuel(pow256, 16);
}

/// A shaped identity has a fixed width in base 58: it takes exactly
/// twenty-one digits.
pub proof fn law_shaped_ids_have_one_width(digest: Seq<u8>)
    requires
        digest.len() == 16,
    ensures
        pow58(20) <= number_of(shaped(digest)) < pow58(21),
{
    let b = shaped(digest);
    let d = digest[0];
    assert(1 <= ((d & 0x07) | 0x01) <= 7) by (bit_vector);
    assert(b[0] == (d & 0x07) | 0x01);
    lemma_number_bounds(b);
    lemma_powers();
    let x = b[0] as int;
    let q = pow256(15) as int;
    assert(x * q >= q) by (nonlinear_arith)
        requires
            x >= 1,
            q >= 0,
    ;
    assert((x + 1) * q <= 8 * q) by (nonlinear_arith)
        requires
            x <= 7,
            q >= 0,
    ;
}

/// `digest16` gives the first bytes of a digest of any bytes, and `id_of` the
/// identity of any sixteen bytes.
pub open spec fn can_identify<F: Fn(Vec<u8>) -> [u8; 16], G: Fn([u8; 16]) -> Id128>(
    digest16: F,
    id_of: G,
) -> bool {
    &&& forall|b: Vec<u8>| #[trigger] call_requires(digest16, (b,))
    &&& forall|b: [u8; 16]| #[trigger] call_requires(id_of, (b,))
}

/// `id` is the identity of content: that of the shaped digest of its seed.
pub open spec fn identifies<F: Fn(Vec<u8>) -> [u8; 16], G: Fn([u8; 16]) -> Id128>(
    digest16: F,
    id_of: G,
    seed: Seq<u8>,
    id: Id128,
) -> bool {
    exists|s: Vec<u8>, d: [u8; 16], b: [u8; 16]|
        s@ == seed && b@ == shaped(d@) && #[trigger] call_ensures(digest16, (s,), d)
            && #[trigger] call_ensures(id_of, (b,), id)
}

/// The identity of immutable content. The same seed gives the same identity
/// wherever the digest does.
pub fn config_module_id<F: Fn(Vec<u8>) -> [u8; 16], G: Fn([u8; 16]) -> Id128>(
    seed: Vec<u8>,
    digest16: &F,
    id_of: &G,
) -> (r: Id128)
    requires
        can_identify(*digest16, *id_of),
    ensures
        identifies(*digest16, *id_of, seed@, r),
{
    let d = (*digest16)(seed);
    let b = shape_id(d);
    let r = (*id_of)(b);
    assert(call_ensures(*digest16, (seed,), d));
    assert(call_ensures(*id_of, (b,), r));
    r
}

/// The identity of the built-in layer.
pub fn builtin_config_module_id<F: Fn(Vec<u8>) -> [u8; 16], G: Fn([u8; 16]) -> Id128>(
    digest16: &F,
    id_of: &G,
) -> (r: Id128)
    requires
        can_identify(*digest16, *id_of),
    ensures
        identifies(*digest16, *id_of, encode_utf8(BUILTIN_CONFIG_SOURCE@), r),
{
    config_module_id(BUILTIN_CONFIG_SOURCE.as_bytes_vec(), digest16, id_of)
}

/// A layer of the root scope that depends on nothing and asks for nothing.
pub open spec fn layer(
    schema: u32,
    id: Seq<char>,
    origin: ModuleOrigin,
    trust_class: TrustClass,
    source: Seq<char>,
) -> PackageManifestView {
    PackageManifestView {
        schema,
        module_id: id,
        origin,
        trust_class,
        scope: Seq::empty(),
        deps: Seq::empty(),
        capabilities: Seq::empty(),
        source,
        state_schema: None,
        state_key: None,
    }
}

pub fn make_layer(
    schema: u32,
    module_id: Id128,
    origin: ModuleOrigin,
    trust_class: TrustClass,
    source: String,
) -> (r: PackageManifest)
    ensures
        r@ == layer(schema, module_id@, origin, trust_class, source@),
        r.module_id == module_id,
{
    PackageManifest {
        schema,
        module_id,
        origin,
        trust_class,
        scope: root_scope(),
        deps: Vec::new(),
        capabilities: Vec::new(),
        source,
        state_schema: None,
        state_key: None,
    }
}

/// The manifest of the built-in layer, under the package schema in force.
pub fn builtin_config_manifest<F: Fn(Vec<u8>) -> [u8; 16], G: Fn([u8; 16]) -> Id128>(
    schema: u32,
    digest16: &F,
    id_of: &G,
) -> (r: PackageManifest)
    requires
        can_identify(*digest16, *id_of),
    ensures
        identifies(*digest16, *id_of, encode_utf8(BUILTIN_CONFIG_SOURCE@), r.module_id),
        r@ == layer(
            schema,
            r.module_id@,
            ModuleOrigin::Builtin,
            TrustClass::Builtin,
            BUILTIN_CONFIG_SOURCE@,
        ),
{
    let id = builtin_config_module_id(digest16, id_of);
    make_layer(
        schema,
        id,
        ModuleOrigin::Builtin,
        TrustClass::Builtin,
        BUILTIN_CONFIG_SOURCE.to_owned(),
    )
}

/// An identity keeps every byte of its digest but three: the first is odd and
/// at most seven, the seventh holds the version, seven, before the digest's
/// lower half, and the ninth holds the variant before the digest's lower six
/// bits.
pub proof fn law_identities_keep_their_digest(digest: Seq<u8>, i: int)
    requires
        digest.len() == 16,
        0 <= i < 16,
    ensures
        shaped(digest).len() == 16,
        i != 0 && i != 6 && i != 8 ==> shaped(digest)[i] == digest[i],
        1 <= shaped(digest)[0] <= 7,
        shaped(digest)[0] % 2 == 1,
        shaped(digest)[6] == 0x70 + digest[6] % 16,
        shaped(digest)[8] == 0x80 + digest[8] % 64,
{
    let a = digest[0];
    let b = digest[6];
    let c = digest[8];
    assert(1 <= ((a & 0x07) | 0x01) <= 7 && ((a & 0x07) | 0x01) % 2 == 1) by (bit_vector);
    assert(((b & 0x0f) | 0x70) == 0x70 + b % 16) by (bit_vector);
    assert(((c & 0x3f) | 0x80) == 0x80 + c % 64) by (bit_vector);
}

/// A layer is of the root scope, has the text, origin and trust it was made
/// with, and asks for nothing.
pub proof fn law_layers_ask_for_nothing(
    schema: u32,
    id: Seq<char>,
    origin: ModuleOrigin,
    trust_class: TrustClass,
    source: Seq<char>,
)
    ensures
        ({
            let m = layer(schema, id, origin, trust_class, source);
            &&& m.schema == schema
            &&& m.module_id == id
            &&& m.origin == origin
            &&& m.trust_class == trust_class
            &&& m.source == source
            &&& m.scope.len() == 0
            &&& m.deps.len() == 0
            &&& m.capabilities.len() == 0
            &&& m.state_key is None
            &&& m.state_schema is None
        }),
{
}

} // verus!
