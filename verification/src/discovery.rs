//! Config discovery: the config layers of a project, lowest first.
use vstd::prelude::*;
use vstd::string::*;
use vstd::utf8::*;
use crate::builtin_config;
use crate::ids::Id128;
use crate::package::{ModuleOrigin, PackageManifest, TrustClass};
use crate::text;
use crate::value;
use crate::value::Value;

verus! {

broadcast use value::group_views;

/// A config file that is there but cannot be read. An absent file is no error.
#[derive(Debug, Clone, PartialEq, Eq)]
pub enum DiscoveryError {
    Io { path: String, source: String },
}

pub enum DiscoveryErrorView {
    Io { path: Seq<char>, source: Seq<char> },
}

impl View for DiscoveryError {
    type V = DiscoveryErrorView;

    open spec fn view(&self) -> DiscoveryErrorView {
        match *self {
            DiscoveryError::Io { path, source } => DiscoveryErrorView::Io { path: path@, source: source@ },
        }
    }
}

impl DiscoveryError {
    /// The message shown to a user.
    pub fn text(&self) -> (r: String)
        ensures
            r@ == "cannot read config layer "@ + self@->path + ": "@ + self@->source,
    {
        match self {
            DiscoveryError::Io { path, source } => {
                let mut t = text::cat3("cannot read config layer ", path.as_str(), ": ");
                t.append(source.as_str());
                t
            },
        }
    }
}

/// What reading a config file gave.
#[derive(Debug, Clone, PartialEq, Eq)]
pub enum LayerRead {
    Text(String),
    Absent,
    Failed(String),
}

// ---------- paths ----------

/// A path with one more component; the empty path has none before it.
pub open spec fn joined(path: Seq<char>, name: Seq<char>) -> Seq<char> {
    if path.len() == 0 {
        name
    } else if path.last() == '/' {
        path + name
    } else {
        path + "/"@ + name
    }
}

pub open spec fn is_absolute(path: Seq<char>) -> bool {
    path.len() > 0 && path[0] == '/'
}

/// The user's config file: under the config home if that is set to an
/// absolute path, else under the home directory. Empty counts as not set.
pub open spec fn user_path(config_home: Option<Seq<char>>, home: Option<Seq<char>>) -> Option<
    Seq<char>,
> {
    if config_home is Some && is_absolute(config_home->0) {
        Some(joined(joined(config_home->0, "kanbei"@), "init.lua"@))
    } else if home is Some && home->0.len() > 0 {
        Some(joined(joined(joined(home->0, ".config"@), "kanbei"@), "init.lua"@))
    } else {
        None
    }
}

/// The project's config file.
pub open spec fn project_path(dir: Seq<char>) -> Seq<char> {
    joined(joined(dir, ".kanbei"@), "init.lua"@)
}

fn join(path: &str, name: &str) -> (r: String)
    ensures
        r@ == joined(path@, name@),
{
    let n: usize = path.unicode_len();
    if n == 0 {
        return name.to_owned();
    }
    if path.get_char(n - 1) == '/' {
        return text::cat2(path, name);
    }
    text::cat3(path, "/", name)
}

pub fn user_config_path(config_home: &Option<String>, home: &Option<String>) -> (r: Option<String>)
    ensures
        value::opt_view(r) == user_path(value::opt_view(*config_home), value::opt_view(*home)),
{
    if let Some(dir) = config_home {
        let dir = dir.as_str();
        if dir.unicode_len() > 0 {
            if dir.get_char(0) == '/' {
                let under = join(dir, "kanbei");
                return Some(join(under.as_str(), "init.lua"));
            }
        }
    }
    if let Some(dir) = home {
        let dir = dir.as_str();
        if dir.unicode_len() > 0 {
            let under = join(dir, ".config");
            let under = join(under.as_str(), "kanbei");
            return Some(join(under.as_str(), "init.lua"));
        }
    }
    None
}

pub fn project_config_path(dir: &str) -> (r: String)
    ensures
        r@ == project_path(dir@),
{
    let under = join(dir, ".kanbei");
    join(under.as_str(), "init.lua")
}

// ---------- layers ----------

pub open spec fn discriminator(origin: ModuleOrigin) -> Seq<char> {
    match origin {
        ModuleOrigin::WorkspaceConfig => "workspace_config"@,
        _ => "user_config"@,
    }
}

/// The bytes that a layer's identity is made from: where it comes from, then
/// its text.
pub open spec fn layer_seed(source: Seq<char>, origin: ModuleOrigin) -> Seq<u8> {
    encode_utf8(discriminator(origin)) + seq![0u8] + encode_utf8(source)
}

fn seed_of(source: &str, origin: ModuleOrigin) -> (r: Vec<u8>)
    ensures
        r@ == layer_seed(source@, origin),
{
    let name = match origin {
        ModuleOrigin::WorkspaceConfig => "workspace_config",
        _ => "user_config",
    };
    let mut seed = name.as_bytes_vec();
    seed.push(0);
    let mut rest = source.as_bytes_vec();
    let ghost head = seed@;
    let ghost tail = rest@;
    seed.append(&mut rest);
    assert(head =~= encode_utf8(name@) + seq![0u8]);
    assert(seed@ =~= head + tail);
    seed
}

/// A file-backed layer: its identity follows from its text and origin.
pub open spec fn is_layer<F: Fn(Vec<u8>) -> [u8; 16], G: Fn([u8; 16]) -> Id128>(
    m: PackageManifest,
    source: Seq<char>,
    origin: ModuleOrigin,
    trust_class: TrustClass,
    schema: u32,
    digest16: F,
    id_of: G,
) -> bool {
    &&& m@ == builtin_config::layer(schema, m.module_id@, origin, trust_class, source)
    &&& builtin_config::identifies(digest16, id_of, layer_seed(source, origin), m.module_id)
}

/// The layer of a config file: none where the file is absent, an error where
/// it cannot be read.
pub fn load_layer<F: Fn(Vec<u8>) -> [u8; 16], G: Fn([u8; 16]) -> Id128>(
    path: &String,
    read: &LayerRead,
    origin: ModuleOrigin,
    trust_class: TrustClass,
    schema: u32,
    digest16: &F,
    id_of: &G,
) -> (r: Result<Option<PackageManifest>, DiscoveryError>)
    requires
        builtin_config::can_identify(*digest16, *id_of),
    ensures
        match (*read, r) {
            (LayerRead::Text(source), Ok(Some(m))) => is_layer(
                m,
                source@,
                origin,
                trust_class,
                schema,
                *digest16,
                *id_of,
            ),
            (LayerRead::Absent, Ok(None)) => true,
            (LayerRead::Failed(e), Err(x)) => x@ == (DiscoveryErrorView::Io {
                path: path@,
                source: e@,
            }),
            _ => false,
        },
{
    match read {
        LayerRead::Absent => Ok(None),
        LayerRead::Failed(e) => Err(DiscoveryError::Io { path: path.clone(), source: e.clone() }),
        LayerRead::Text(source) => {
            let id = builtin_config::config_module_id(
                seed_of(source.as_str(), origin),
                digest16,
                id_of,
            );
            Ok(
                Some(
                    builtin_config::make_layer(schema, id, origin, trust_class, source.clone()),
                ),
            )
        },
    }
}

/// Whether a layer's file is there.
pub open spec fn is_read(read: LayerRead) -> bool {
    read is Text
}

/// The config layers of a project, lowest first: the built-in one, then the
/// user's, then the project's. `user` is what reading the user's file gave,
/// where there is a path to it.
pub fn discover_config_layers<F: Fn(Vec<u8>) -> [u8; 16], G: Fn([u8; 16]) -> Id128>(
    user_path: &Option<String>,
    user: &LayerRead,
    project_path: &String,
    project: &LayerRead,
    schema: u32,
    digest16: &F,
    id_of: &G,
) -> (r: Result<Vec<PackageManifest>, DiscoveryError>)
    requires
        builtin_config::can_identify(*digest16, *id_of),
    ensures
        ({
            let of_user = user_path is Some && is_read(*user);
            match r {
                Ok(layers) => {
                    &&& !(user_path is Some && *user is Failed)
                    &&& !(*project is Failed)
                    &&& layers.len() == 1 + (if of_user {
                        1int
                    } else {
                        0
                    }) + (if is_read(*project) {
                        1int
                    } else {
                        0
                    })
                    &&& layers@[0]@ == builtin_config::layer(
                        schema,
                        layers@[0].module_id@,
                        ModuleOrigin::Builtin,
                        TrustClass::Builtin,
                        builtin_config::BUILTIN_CONFIG_SOURCE@,
                    )
                    &&& builtin_config::identifies(
                        *digest16,
                        *id_of,
                        encode_utf8(builtin_config::BUILTIN_CONFIG_SOURCE@),
                        layers@[0].module_id,
                    )
                    &&& of_user ==> is_layer(
                        layers@[1],
                        user->Text_0@,
                        ModuleOrigin::UserConfig,
                        TrustClass::User,
                        schema,
                        *digest16,
                        *id_of,
                    )
                    &&& is_read(*project) ==> is_layer(
                        layers@.last(),
                        project->Text_0@,
                        ModuleOrigin::WorkspaceConfig,
                        TrustClass::Workspace,
                        schema,
                        *digest16,
                        *id_of,
                    )
                },
                Err(e) => if user_path is Some && *user is Failed {
                    e@ == (DiscoveryErrorView::Io {
                        path: user_path->0@,
                        source: user->Failed_0@,
                    })
                } else {
                    *project is Failed && e@ == (DiscoveryErrorView::Io {
                        path: project_path@,
                        source: project->Failed_0@,
                    })
                },
            }
        }),
{
    let mut layers: Vec<PackageManifest> = Vec::new();
    layers.push(builtin_config::builtin_config_manifest(schema, digest16, id_of));
    if let Some(path) = user_path {
        match load_layer(
            path,
            user,
            ModuleOrigin::UserConfig,
            TrustClass::User,
            schema,
            digest16,
            id_of,
        ) {
            Ok(Some(m)) => layers.push(m),
            Ok(None) => {},
            Err(e) => return Err(e),
        }
    }
    match load_layer(
        project_path,
        project,
        ModuleOrigin::WorkspaceConfig,
        TrustClass::Workspace,
        schema,
        digest16,
        id_of,
    ) {
        Ok(Some(m)) => layers.push(m),
        Ok(None) => {},
        Err(e) => return Err(e),
    }
    Ok(layers)
}

/// Identical files of the user and of a project are different layers: their
/// identities come from different bytes.
pub proof fn law_layers_of_different_origin_differ(user: Seq<char>, project: Seq<char>)
    ensures
        layer_seed(user, ModuleOrigin::UserConfig) != layer_seed(
            project,
            ModuleOrigin::WorkspaceConfig,
        ),
{
    reveal_strlit("user_config");
    reveal_strlit("workspace_config");
    let u = discriminator(ModuleOrigin::UserConfig);
    let w = discriminator(ModuleOrigin::WorkspaceConfig);
    encode_utf8_first_scalar(u);
    encode_utf8_first_scalar(w);
    assert(u[0] == 'u' && w[0] == 'w');
    let a = layer_seed(user, ModuleOrigin::UserConfig);
    let b = layer_seed(project, ModuleOrigin::WorkspaceConfig);
    assert(encode_utf8(u).len() > 0) by {
        encode_utf8_valid_utf8(u);
    }
    assert(encode_utf8(w).len() > 0) by {
        encode_utf8_valid_utf8(w);
    }
    assert(encode_scalar('u' as u32) =~= seq![0x75u8]) by {
        assert(leading_byte_width_1(0x75u32) == 0x75u8) by (bit_vector);
    }
    assert(encode_scalar('w' as u32) =~= seq![0x77u8]) by {
        assert(leading_byte_width_1(0x77u32) == 0x77u8) by (bit_vector);
    }
    assert(a[0] == 0x75u8);
    assert(b[0] == 0x77u8);
}

/// The config files have their fixed places: the user's below the config home
/// where that is absolute, else below the home directory, and the project's
/// in its directory.
pub proof fn law_config_files_have_their_places(dir: Seq<char>, home: Option<Seq<char>>)
    requires
        dir.len() > 0,
        dir.last() != '/',
    ensures
        project_path(dir) == dir + "/.kanbei/init.lua"@,
        dir[0] == '/' ==> user_path(Some(dir), home) == Some(dir + "/kanbei/init.lua"@),
        dir[0] != '/' ==> user_path(Some(dir), home) == user_path(None, home),
        user_path(None, Some(dir)) == Some(dir + "/.config/kanbei/init.lua"@),
        user_path(None, Some(Seq::empty())) is None,
        user_path(Some(Seq::empty()), home) == user_path(None, home),
        user_path(None, None) is None,
{
    reveal_strlit("/");
    reveal_strlit(".kanbei");
    reveal_strlit("kanbei");
    reveal_strlit("init.lua");
    reveal_strlit(".config");
    reveal_strlit("/.kanbei/init.lua");
    reveal_strlit("/kanbei/init.lua");
    reveal_strlit("/.config/kanbei/init.lua");
    assert(joined(dir, ".kanbei"@).last() == 'i');
    assert(project_path(dir) =~= dir + "/.kanbei/init.lua"@);
    assert(joined(dir, "kanbei"@).last() == 'i');
    assert(joined(joined(dir, "kanbei"@), "init.lua"@) =~= dir + "/kanbei/init.lua"@);
    assert(joined(dir, ".config"@).last() == 'g');
    assert(joined(joined(dir, ".config"@), "kanbei"@).last() == 'i');
    assert(joined(joined(joined(dir, ".config"@), "kanbei"@), "init.lua"@) =~= dir
        + "/.config/kanbei/init.lua"@);
}

/// A layer's identity comes from its whole text: layers of one origin with the
/// same seed have the same text.
pub proof fn law_seeds_hold_the_whole_text(a: Seq<char>, b: Seq<char>, origin: ModuleOrigin)
    requires
        layer_seed(a, origin) == layer_seed(b, origin),
    ensures
        a == b,
{
    let head = encode_utf8(discriminator(origin)) + seq![0u8];
    let x = layer_seed(a, origin);
    assert(x =~= head + encode_utf8(a));
    assert(layer_seed(b, origin) =~= head + encode_utf8(b));
    assert(encode_utf8(a) =~= x.skip(head.len() as int));
    assert(encode_utf8(b) =~= x.skip(head.len() as int));
    encode_utf8_valid_utf8(a);
    encode_utf8_decode_utf8(a);
    encode_utf8_decode_utf8(b);
}

/// A file-backed layer is the file's text under its origin and trust, and its
/// identity is that of its seed.
pub proof fn law_file_layers_hold_their_text<F: Fn(Vec<u8>) -> [u8; 16], G: Fn([u8; 16]) -> Id128>(
    m: PackageManifest,
    source: Seq<char>,
    origin: ModuleOrigin,
    trust_class: TrustClass,
    schema: u32,
    digest16: F,
    id_of: G,
)
    requires
        is_layer(m, source, origin, trust_class, schema, digest16, id_of),
    ensures
        m@.source == source,
        m@.origin == origin,
        m@.trust_class == trust_class,
        m@.schema == schema,
        exists|s: Vec<u8>, d: [u8; 16], b: [u8; 16]|
            s@ == layer_seed(source, origin) && b@ == builtin_config::shaped(d@)
                && #[trigger] call_ensures(digest16, (s,), d) && #[trigger] call_ensures(
                id_of,
                (b,),
                m.module_id,
            ),
{
    let (s, d, b) = choose|s: Vec<u8>, d: [u8; 16], b: [u8; 16]|
        s@ == layer_seed(source, origin) && b@ == builtin_config::shaped(d@)
            && #[trigger] call_ensures(digest16, (s,), d) && #[trigger] call_ensures(
            id_of,
            (b,),
            m.module_id,
        );
    assert(call_ensures(digest16, (s,), d));
    assert(call_ensures(id_of, (b,), m.module_id));
}

} // verus!
