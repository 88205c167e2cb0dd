use kanbei::builtin_config::{
    builtin_config_manifest, builtin_config_module_id, config_module_id, root_scope, shape_id,
};
use kanbei::discovery::{
    discover_config_layers, project_config_path, user_config_path, DiscoveryError, LayerRead,
};
use kanbei::ids::{Digest, Id128};
use kanbei::package::{ModuleOrigin, PackageManifest, TrustClass};

const PACKAGE_SCHEMA: u32 = 1;

fn fnv(bytes: &[u8], seed: u64) -> u64 {
    let mut hash: u64 = 0xcbf29ce484222325 ^ seed;
    for b in bytes {
        hash ^= *b as u64;
        hash = hash.wrapping_mul(0x100000001b3);
    }
    hash
}

/// A 16-byte digest for the tests.
fn digest16(bytes: Vec<u8>) -> [u8; 16] {
    let mut out = [0u8; 16];
    out[..8].copy_from_slice(&fnv(&bytes, 0).to_be_bytes());
    out[8..].copy_from_slice(&fnv(&bytes, 1).to_be_bytes());
    out
}

/// The base58 text of an identity.
fn id_of(bytes: [u8; 16]) -> Id128 {
    const ALPHABET: &[u8] = b"123456789ABCDEFGHJKLMNPQRSTUVWXYZabcdefghijkmnopqrstuvwxyz";
    let mut n = u128::from_be_bytes(bytes);
    let mut out: Vec<char> = Vec::new();
    while n > 0 {
        out.push(ALPHABET[(n % 58) as usize] as char);
        n /= 58;
    }
    out.reverse();
    Id128 {
        text: out.into_iter().collect(),
    }
}

fn package_digest(m: &PackageManifest) -> Digest {
    let shown = format!("{m:?}");
    Digest {
        text: format!("{:016x}", fnv(shown.as_bytes(), 2)),
    }
}

fn builtin() -> PackageManifest {
    builtin_config_manifest(PACKAGE_SCHEMA, &digest16, &id_of)
}

// ---------- the built-in layer ----------

/// Two calls produce an identical module id AND an identical package digest.
#[test]
fn builtin_config_manifest_is_deterministic() {
    let a = builtin();
    let b = builtin();
    assert_eq!(a.module_id, b.module_id, "module id must be stable");
    assert_eq!(
        package_digest(&a),
        package_digest(&b),
        "package digest must be stable"
    );
    assert_eq!(a.module_id, builtin_config_module_id(&digest16, &id_of));
}

/// The text form keeps the 21-char base58 width.
#[test]
fn builtin_config_module_id_text_is_a_stable_width() {
    assert_eq!(builtin_config_module_id(&digest16, &id_of).text.len(), 21);
}

/// The generation is trusted, built-in, and root-scoped.
#[test]
fn builtin_config_manifest_is_builtin_root_scope() {
    let m = builtin();
    assert_eq!(m.schema, PACKAGE_SCHEMA);
    assert_eq!(m.origin, ModuleOrigin::Builtin);
    assert_eq!(m.trust_class, TrustClass::Builtin);
    assert_eq!(m.scope, root_scope());
    assert!(m.deps.is_empty());
    assert!(m.source.contains("kb_on_activate"));
    assert!(m.source.contains("kb_hot"));
    assert!(m.source.contains(r#""kind":"settings""#));
    assert!(m.source.contains(r#""kind":"keymap""#), "built-in defaults ship bindings");
    assert!(m.source.contains(r#""action":"cancel_run""#));
    assert!(m.source.contains(r#""action":"approve""#));
    assert!(m.source.contains(r#""action":"deny""#));
    assert!(m.source.contains(r#""context":"modal""#), "approval keys are modal");
}

#[test]
fn shaped_identities_carry_version_and_variant() {
    assert_eq!(
        shape_id([0xff; 16]),
        [
            0x07, 0xff, 0xff, 0xff, 0xff, 0xff, 0x7f, 0xff, 0xbf, 0xff, 0xff, 0xff, 0xff, 0xff,
            0xff, 0xff
        ]
    );
    assert_eq!(
        shape_id([0; 16]),
        [0x01, 0, 0, 0, 0, 0, 0x70, 0, 0x80, 0, 0, 0, 0, 0, 0, 0]
    );
}

#[test]
fn every_shaped_identity_has_one_width() {
    for seed in 0u64..200 {
        let id = config_module_id(seed.to_be_bytes().to_vec(), &digest16, &id_of);
        assert_eq!(id.text.len(), 21);
    }
}

// ---------- discovery ----------

/// Files by their paths; a file without contents cannot be read.
struct Files(Vec<(String, Option<String>)>);

impl Files {
    fn read(&self, path: &str) -> LayerRead {
        match self.0.iter().find(|(p, _)| p == path) {
            Some((_, Some(text))) => LayerRead::Text(text.clone()),
            Some((_, None)) => LayerRead::Failed("is a directory".to_string()),
            None => LayerRead::Absent,
        }
    }

    fn write(&mut self, path: String, contents: &str) {
        self.0.push((path, Some(contents.to_string())));
    }

    fn discover(
        &self,
        dir: &str,
        config_home: Option<&str>,
        home: Option<&str>,
    ) -> Result<Vec<PackageManifest>, DiscoveryError> {
        let user_path = user_config_path(
            &config_home.map(|s| s.to_string()),
            &home.map(|s| s.to_string()),
        );
        let user = match &user_path {
            Some(p) => self.read(p),
            None => LayerRead::Absent,
        };
        let project_path = project_config_path(dir);
        let project = self.read(&project_path);
        discover_config_layers(
            &user_path,
            &user,
            &project_path,
            &project,
            PACKAGE_SCHEMA,
            &digest16,
            &id_of,
        )
    }
}

/// No user or project file: exactly the built-in layer.
#[test]
fn no_files_yields_only_builtin() {
    let files = Files(Vec::new());
    let layers = files.discover("/empty", Some("/empty-cfg"), None).unwrap();
    assert_eq!(layers.len(), 1);
    assert_eq!(layers[0], builtin());
}

/// A user file present: built-in then user, in that order.
#[test]
fn user_file_yields_builtin_then_user() {
    let src = "function kb_hot(x) return x end\n";
    let mut files = Files(Vec::new());
    files.write("/user-cfg/kanbei/init.lua".to_string(), src);
    let layers = files.discover("/user", Some("/user-cfg"), None).unwrap();
    assert_eq!(layers.len(), 2);
    assert_eq!(layers[0].origin, ModuleOrigin::Builtin);
    assert_eq!(layers[1].origin, ModuleOrigin::UserConfig);
    assert_eq!(layers[1].trust_class, TrustClass::User);
    assert_eq!(layers[1].scope, root_scope());
    assert_eq!(layers[1].schema, PACKAGE_SCHEMA);
    assert_eq!(layers[1].source, src);
    assert!(layers[1].deps.is_empty());
    assert!(layers[1].capabilities.is_empty());
    assert_eq!(layers[1].state_schema, None);
    assert_eq!(layers[1].state_key, None);
}

/// Both files present: built-in, user, project, in that order.
#[test]
fn project_file_yields_ordered_layers() {
    let mut files = Files(Vec::new());
    files.write("/project-cfg/kanbei/init.lua".to_string(), "user");
    files.write("/project/.kanbei/init.lua".to_string(), "project");
    let layers = files.discover("/project", Some("/project-cfg"), None).unwrap();
    assert_eq!(layers.len(), 3);
    assert_eq!(layers[0].origin, ModuleOrigin::Builtin);
    assert_eq!(layers[1].origin, ModuleOrigin::UserConfig);
    assert_eq!(layers[2].origin, ModuleOrigin::WorkspaceConfig);
    assert_eq!(layers[2].trust_class, TrustClass::Workspace);
    assert_eq!(layers[2].source, "project");
}

/// The fallback is `$HOME/.config/kanbei/init.lua` when the config home is
/// unset.
#[test]
fn home_fallback_path() {
    let mut files = Files(Vec::new());
    files.write("/home/.config/kanbei/init.lua".to_string(), "home");
    let layers = files.discover("/home-proj", None, Some("/home")).unwrap();
    assert_eq!(layers.len(), 2);
    assert_eq!(layers[1].source, "home");
}

/// Repeated discovery of the same files yields identical module ids and
/// package digests; identical user/project source stays distinct.
#[test]
fn ids_are_deterministic_and_origin_distinct() {
    let mut files = Files(Vec::new());
    files.write("/det-cfg/kanbei/init.lua".to_string(), "same");
    files.write("/det/.kanbei/init.lua".to_string(), "same");
    let a = files.discover("/det", Some("/det-cfg"), None).unwrap();
    let b = files.discover("/det", Some("/det-cfg"), None).unwrap();
    assert_eq!(a.len(), 3);
    assert_eq!(a[1].module_id, b[1].module_id);
    assert_eq!(a[2].module_id, b[2].module_id);
    assert_eq!(package_digest(&a[1]), package_digest(&b[1]));
    assert_eq!(package_digest(&a[2]), package_digest(&b[2]));
    assert_ne!(
        a[1].module_id, a[2].module_id,
        "identical source in user and project layers must stay distinct"
    );
}

/// An existing-but-unreadable file is an error, not a skipped layer.
#[test]
fn unreadable_file_is_an_error() {
    let files = Files(vec![("/unreadable-cfg/kanbei/init.lua".to_string(), None)]);
    let err = files
        .discover("/unreadable", Some("/unreadable-cfg"), None)
        .unwrap_err();
    assert!(matches!(err, DiscoveryError::Io { .. }), "{err:?}");
    assert_eq!(
        err.text(),
        "cannot read config layer /unreadable-cfg/kanbei/init.lua: is a directory"
    );
}

/// Absent HOME and config home do not panic and skip the user layer.
#[test]
fn absent_home_and_xdg_does_not_panic() {
    let files = Files(Vec::new());
    let layers = files.discover("/no-home", None, None).unwrap();
    assert_eq!(layers.len(), 1);
    assert_eq!(layers[0], builtin());
}

/// A relative config home is treated as unset: the user layer falls back to
/// `$HOME/.config`.
#[test]
fn relative_xdg_config_home_is_treated_as_unset() {
    let mut files = Files(Vec::new());
    files.write(
        "/rel-xdg-home/.config/kanbei/init.lua".to_string(),
        "home-layer",
    );
    let layers = files
        .discover("/rel-xdg-proj", Some("relative/config"), Some("/rel-xdg-home"))
        .unwrap();
    assert_eq!(layers.len(), 2, "the HOME fallback layer is used");
    assert_eq!(layers[1].source, "home-layer");
}

#[test]
fn paths_are_joined_onto_what_there_is() {
    assert_eq!(project_config_path(""), ".kanbei/init.lua");
    assert_eq!(project_config_path("/"), "/.kanbei/init.lua");
    assert_eq!(project_config_path("/p"), "/p/.kanbei/init.lua");
}
