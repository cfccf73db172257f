//! The registries this engine knows, which checks each supports, the
//! dependency files each can read, and the validation of a lockfile request.
use vstd::prelude::*;
use crate::config::{normalize_check_id, normalize_check_id_spec};
use crate::pipeline::{registered_checks, registered_spec};
use crate::text::{chars_of, eq_str, last_index_exec, last_index_of, lower_chars, lower_spec, string_of, trim_chars, trim_spec};

verus! {

/// A registry of packages.
#[derive(Debug, Clone, Copy, PartialEq, Eq, Structural)]
pub enum RegistryKind {
    Npm,
    Cargo,
    Pypi,
}

pub open spec fn registries_spec() -> Seq<RegistryKind> {
    seq![RegistryKind::Npm, RegistryKind::Cargo, RegistryKind::Pypi]
}

impl RegistryKind {
    pub open spec fn key_spec(self) -> Seq<char> {
        match self {
            RegistryKind::Npm => "npm"@,
            RegistryKind::Cargo => "cargo"@,
            RegistryKind::Pypi => "pypi"@,
        }
    }

    /// Key used in requests and configuration.
    pub fn key(self) -> (r: &'static str)
        ensures
            r@ == self.key_spec(),
    {
        match self {
            RegistryKind::Npm => "npm",
            RegistryKind::Cargo => "cargo",
            RegistryKind::Pypi => "pypi",
        }
    }

    /// Ecosystem name for vulnerability queries.
    pub fn ecosystem(self) -> (r: crate::model::RegistryEcosystem)
        ensures
            r == match self {
                RegistryKind::Npm => crate::model::RegistryEcosystem::Npm,
                RegistryKind::Cargo => crate::model::RegistryEcosystem::CratesIo,
                RegistryKind::Pypi => crate::model::RegistryEcosystem::PyPI,
            },
    {
        match self {
            RegistryKind::Npm => crate::model::RegistryEcosystem::Npm,
            RegistryKind::Cargo => crate::model::RegistryEcosystem::CratesIo,
            RegistryKind::Pypi => crate::model::RegistryEcosystem::PyPI,
        }
    }

    pub open spec fn files_spec(self) -> Seq<Seq<char>> {
        match self {
            RegistryKind::Npm => seq!["package-lock.json"@, "package.json"@],
            RegistryKind::Cargo => seq!["Cargo.lock"@, "Cargo.toml"@],
            RegistryKind::Pypi => seq!["requirements.txt"@, "pyproject.toml"@],
        }
    }

    /// Dependency files this registry's parser reads, in search order.
    pub fn supported_files(self) -> (r: Vec<&'static str>)
        ensures
            r@.map_values(|s: &str| s@) == self.files_spec(),
    {
        let r = match self {
            RegistryKind::Npm => vec!["package-lock.json", "package.json"],
            RegistryKind::Cargo => vec!["Cargo.lock", "Cargo.toml"],
            RegistryKind::Pypi => vec!["requirements.txt", "pyproject.toml"],
        };
        assert(r@.map_values(|s: &str| s@) =~= self.files_spec());
        r
    }

}

/// Every registry, in registration order.
pub fn registries() -> (r: Vec<RegistryKind>)
    ensures
        r@ == registries_spec(),
{
    let r = vec![RegistryKind::Npm, RegistryKind::Cargo, RegistryKind::Pypi];
    assert(r@ =~= registries_spec());
    r
}

/// The registry with key `key`, compared in ASCII lowercase.
pub open spec fn registry_for_spec(key: Seq<char>) -> Option<RegistryKind> {
    let k = lower_spec(key);
    if k == "npm"@ {
        Some(RegistryKind::Npm)
    } else if k == "cargo"@ {
        Some(RegistryKind::Cargo)
    } else if k == "pypi"@ {
        Some(RegistryKind::Pypi)
    } else {
        None
    }
}

pub fn registry_for(key: &str) -> (r: Option<RegistryKind>)
    ensures
        r == registry_for_spec(key@),
{
    let cs = chars_of(key);
    let l = lower_chars(cs.as_slice());
    let k = string_of(l.as_slice());
    if eq_str(k.as_str(), "npm") {
        Some(RegistryKind::Npm)
    } else if eq_str(k.as_str(), "cargo") {
        Some(RegistryKind::Cargo)
    } else if eq_str(k.as_str(), "pypi") {
        Some(RegistryKind::Pypi)
    } else {
        None
    }
}

/// How a registry's supported checks are declared.
#[derive(Debug, Clone)]
pub enum RegistryCheckSupport {
    All,
    AllExcept(Vec<&'static str>),
}

/// Whether a registry supports a check: npm supports all; the others all
/// but install-script scanning, as their packages have no install hooks.
pub open spec fn supported_spec(registry: RegistryKind, check: Seq<char>) -> bool {
    registry == RegistryKind::Npm || normalize_check_id_spec(check) != normalize_check_id_spec(
        "install_script"@,
    )
}

/// The central support policy: install-script scanning only where
/// packages have install hooks.
pub fn registry_check_support(registry: RegistryKind) -> (r: RegistryCheckSupport)
    ensures
        registry == RegistryKind::Npm ==> r is All,
        registry != RegistryKind::Npm ==> (r matches RegistryCheckSupport::AllExcept(d) && d@.len() == 1
            && d@[0]@ == "install_script"@),
{
    match registry {
        RegistryKind::Npm => RegistryCheckSupport::All,
        _ => RegistryCheckSupport::AllExcept(vec!["install_script"]),
    }
}

pub open spec fn excluded_by(disallowed: Seq<&str>, check: Seq<char>) -> bool {
    exists|i: int|
        0 <= i < disallowed.len() && normalize_check_id_spec((#[trigger] disallowed[i])@)
            == normalize_check_id_spec(check)
}

/// Whether `mode` lets `check` run; ids are compared normalized.
pub fn check_is_supported(mode: &RegistryCheckSupport, check: &str) -> (r: bool)
    ensures
        *mode is All ==> r,
        (*mode matches RegistryCheckSupport::AllExcept(d) ==> r == !excluded_by(d@, check@)),
{
    match mode {
        RegistryCheckSupport::All => true,
        RegistryCheckSupport::AllExcept(disallowed) => {
            let n = normalize_check_id(check);
            let mut i: usize = 0;
            while i < disallowed.len()
                invariant
                    *mode == RegistryCheckSupport::AllExcept(*disallowed),
                    i <= disallowed@.len(),
                    n@ == normalize_check_id_spec(check@),
                    forall|j: int|
                        0 <= j < i ==> normalize_check_id_spec((#[trigger] disallowed@[j])@) != n@,
                decreases disallowed@.len() - i,
            {
                let d = normalize_check_id(disallowed[i]);
                if eq_str(d.as_str(), n.as_str()) {
                    assert(normalize_check_id_spec(disallowed@[i as int]@) == normalize_check_id_spec(check@));
                    assert(excluded_by(disallowed@, check@));
                    return false;
                }
                i = i + 1;
            }
            true
        },
    }
}

/// Ids of the checks `registry` supports, in registration order.
pub fn supported_checks(registry: RegistryKind) -> (r: Vec<&'static str>)
    ensures
        forall|i: int|
            0 <= i < r@.len() ==> exists|j: int|
                0 <= j < registered_spec().len() && (#[trigger] r@[i])@
                    == registered_spec()[j].id_spec(),
{
    let mode = registry_check_support(registry);
    let checks = registered_checks();
    let mut out: Vec<&'static str> = Vec::new();
    let mut i: usize = 0;
    while i < checks.len()
        invariant
            checks@ == registered_spec(),
            i <= checks@.len(),
            forall|x: int|
                0 <= x < out@.len() ==> exists|j: int|
                    0 <= j < registered_spec().len() && (#[trigger] out@[x])@
                        == registered_spec()[j].id_spec(),
        decreases checks@.len() - i,
    {
        let id = checks[i].id();
        if check_is_supported(&mode, id) {
            out.push(id);
            assert(out@[out@.len() - 1]@ == registered_spec()[i as int].id_spec());
        }
        i = i + 1;
    }
    out
}

/// One cell of the registry-by-check support matrix.
#[derive(Debug, Clone, Copy)]
pub struct CheckSupportRow {
    pub registry: &'static str,
    pub check: &'static str,
    pub supported: bool,
}

/// The support matrix, registry by registry, each with every check.
pub fn check_support_rows() -> (r: Vec<CheckSupportRow>)
    ensures
        r@.len() == registries_spec().len() * registered_spec().len(),
        forall|i: int|
            0 <= i < r@.len() ==> (#[trigger] r@[i]).registry@ == registries_spec()[i / 7].key_spec()
                && r@[i].check@ == registered_spec()[i % 7].id_spec() && r@[i].supported
                == supported_spec(registries_spec()[i / 7], registered_spec()[i % 7].id_spec()),
{
    let regs = registries();
    let checks = registered_checks();
    let mut out: Vec<CheckSupportRow> = Vec::new();
    let mut a: usize = 0;
    while a < regs.len()
        invariant
            regs@ == registries_spec(),
            checks@ == registered_spec(),
            a <= 3,
            out@.len() == a * 7,
            forall|i: int|
                0 <= i < out@.len() ==> (#[trigger] out@[i]).registry@ == registries_spec()[i
                    / 7].key_spec() && out@[i].check@ == registered_spec()[i % 7].id_spec()
                    && out@[i].supported == supported_spec(registries_spec()[i / 7], registered_spec()[i % 7].id_spec()),
        decreases 3 - a,
    {
        let mode = registry_check_support(regs[a]);
        let mut b: usize = 0;
        while b < checks.len()
            invariant
                regs@ == registries_spec(),
                checks@ == registered_spec(),
                a < 3,
                b <= 7,
                out@.len() == a * 7 + b,
                forall|i: int|
                    0 <= i < out@.len() ==> (#[trigger] out@[i]).registry@ == registries_spec()[i
                        / 7].key_spec() && out@[i].check@ == registered_spec()[i % 7].id_spec()
                        && out@[i].supported == supported_spec(registries_spec()[i / 7], registered_spec()[i % 7].id_spec()),
                regs@[a as int] == RegistryKind::Npm ==> mode is All,
                regs@[a as int] != RegistryKind::Npm ==> (mode matches RegistryCheckSupport::AllExcept(d) && d@.len() == 1
                    && d@[0]@ == "install_script"@),
            decreases 7 - b,
        {
            let id = checks[b].id();
            let supported = check_is_supported(&mode, id);
            proof {
                if regs@[a as int] != RegistryKind::Npm {
                    {
                        let d = mode->AllExcept_0;
                        if supported_spec(regs@[a as int], id@) {
                            assert forall|k: int| 0 <= k < d@.len() implies normalize_check_id_spec((#[trigger] d@[k])@)
                                != normalize_check_id_spec(id@) by {
                                assert(k == 0);
                            }
                        } else {
                            assert(normalize_check_id_spec(d@[0]@) == normalize_check_id_spec(id@));
                        }
                    }
                }
            }
            out.push(CheckSupportRow { registry: regs[a].key(), check: id, supported });
            assert(((a * 7 + b) as int) / 7 == a as int && ((a * 7 + b) as int) % 7 == b as int)
                by (nonlinear_arith)
                requires
                    b < 7,
            ;
            b = b + 1;
        }
        a = a + 1;
    }
    out
}

/// Keys of every registry, in registration order.
pub fn supported_package_registry_keys() -> (r: Vec<&'static str>)
    ensures
        r@.map_values(|s: &str| s@) == seq!["npm"@, "cargo"@, "pypi"@],
{
    let r = vec!["npm", "cargo", "pypi"];
    assert(r@.map_values(|s: &str| s@) =~= seq!["npm"@, "cargo"@, "pypi"@]);
    r
}

/// Keys of every registry with a dependency-file parser.
pub fn supported_lockfile_registry_keys() -> (r: Vec<&'static str>)
    ensures
        r@.map_values(|s: &str| s@) == seq!["npm"@, "cargo"@, "pypi"@],
{
    supported_package_registry_keys()
}

/// The first registry: the default for package checks.
pub fn default_package_registry_key() -> (r: &'static str)
    ensures
        r@ == "npm"@,
{
    RegistryKind::Npm.key()
}

/// The first registry with a dependency-file parser.
pub fn default_lockfile_registry_key() -> (r: &'static str)
    ensures
        r@ == "npm"@,
{
    RegistryKind::Npm.key()
}

/// Dependency files of the registry with key `key`.
pub fn supported_lockfile_files_for_registry(key: &str) -> (r: Option<Vec<&'static str>>)
    ensures
        match registry_for_spec(key@) {
            Some(k) => r is Some && r.unwrap()@.map_values(|s: &str| s@) == k.files_spec(),
            None => r is None,
        },
{
    match registry_for(key) {
        Some(k) => Some(k.supported_files()),
        None => None,
    }
}

/// What the file system says of a path.
#[derive(Debug, Clone, Copy, PartialEq, Eq, Structural)]
pub enum PathKind {
    File,
    Directory,
    Other,
    Missing,
}

/// The last component of a path written with `/` (or `\\`) separators.
pub open spec fn file_name_spec(path: Seq<char>) -> Seq<char> {
    let cut = match last_index_of(path, '/') {
        Some(k) => path.skip(k + 1),
        None => path,
    };
    match last_index_of(cut, '\\') {
        Some(k) => cut.skip(k + 1),
        None => cut,
    }
}

fn file_name_of(path: &[char]) -> (r: Vec<char>)
    ensures
        r@ == file_name_spec(path@),
{
    let n = path.len();
    let cut = match last_index_exec(path, '/') {
        Some(k) => crate::text::chars_range(path, k + 1, n),
        None => crate::text::chars_range(path, 0, n),
    };
    assert(path@.subrange(0, path@.len() as int) =~= path@);
    let m = cut.len();
    match last_index_exec(cut.as_slice(), '\\') {
        Some(k) => crate::text::chars_range(cut.as_slice(), k + 1, m),
        None => cut,
    }
}

pub open spec fn names_file(files: Seq<Seq<char>>, name: Seq<char>) -> bool {
    files.contains(name)
}

pub open spec fn join_files(files: Seq<Seq<char>>) -> Seq<char> {
    files[0] + ", "@ + files[1]
}

pub open spec fn validate_spec(registry: Seq<char>, path: Option<Seq<char>>, kind: PathKind) -> Result<(), Seq<char>> {
    let reg = trim_spec(registry);
    if reg.len() == 0 {
        Err("registry must not be empty"@)
    } else {
        match registry_for_spec(reg) {
            None => Err(
                "unsupported lockfile registry '"@ + reg + "'; supported registries: npm, cargo, pypi"@,
            ),
            Some(k) => match path {
                None => Ok(()),
                Some(p) => {
                    let t = trim_spec(p);
                    if t.len() == 0 {
                        Err("path must not be an empty string"@)
                    } else if kind == PathKind::File {
                        let name = file_name_spec(t);
                        if names_file(k.files_spec(), name) {
                            Ok(())
                        } else {
                            Err(
                                "unsupported dependency file '"@ + name + "'; expected one of: "@
                                    + join_files(k.files_spec()),
                            )
                        }
                    } else if kind == PathKind::Other {
                        Err("path must point to a regular file or directory"@)
                    } else {
                        Ok(())
                    }
                },
            },
        }
    }
}

/// Validates a lockfile request against what the file system said of the
/// (trimmed) path.
pub fn validate_lockfile_request_for(registry: &str, path: Option<&str>, kind: PathKind) -> (r: Result<(), String>)
    ensures
        match r {
            Ok(()) => validate_spec(registry@, crate::model::opt_str_view(path), kind) == Ok::<(), Seq<char>>(()),
            Err(e) => validate_spec(registry@, crate::model::opt_str_view(path), kind) == Err::<(), Seq<char>>(e@),
        },
{
    let rc = chars_of(registry);
    let reg_chars = trim_chars(rc.as_slice());
    let reg = string_of(reg_chars.as_slice());
    if reg.unicode_len() == 0 {
        return Err("registry must not be empty".to_owned());
    }
    let k = match registry_for(reg.as_str()) {
        None => {
            let mut msg = String::new();
            crate::text::append_str(&mut msg, "unsupported lockfile registry '");
            crate::text::append_str(&mut msg, reg.as_str());
            crate::text::append_str(&mut msg, "'; supported registries: npm, cargo, pypi");
            return Err(msg);
        },
        Some(k) => k,
    };
    let p = match path {
        None => return Ok(()),
        Some(p) => p,
    };
    let pc = chars_of(p);
    let t = trim_chars(pc.as_slice());
    if t.len() == 0 {
        return Err("path must not be an empty string".to_owned());
    }
    match kind {
        PathKind::File => {
            let name_chars = file_name_of(t.as_slice());
            let name = string_of(name_chars.as_slice());
            let files = k.supported_files();
            let mut i: usize = 0;
            while i < files.len()
                invariant
                    i <= files@.len(),
                    reg@ == trim_spec(registry@),
                    registry_for_spec(reg@) == Some(k),
                    t@ == trim_spec(p@),
                    t@.len() != 0,
                    reg@.len() != 0,
                    name@ == file_name_spec(t@),
                    path == Some(p),
                    kind == PathKind::File,
                    files@.map_values(|s: &str| s@) == k.files_spec(),
                    forall|j: int| 0 <= j < i ==> (#[trigger] files@[j])@ != name@,
                decreases files@.len() - i,
            {
                if eq_str(files[i], name.as_str()) {
                    assert(k.files_spec()[i as int] == name@);
                    assert(k.files_spec().contains(name@));
                    assert(reg@ == trim_spec(registry@));
                    assert(registry_for_spec(reg@) == Some(k));
                    assert(t@ == trim_spec(p@));
                    assert(name@ == file_name_spec(trim_spec(p@)));
                    return Ok(());
                }
                i = i + 1;
            }
            assert(!k.files_spec().contains(name@)) by {
                if k.files_spec().contains(name@) {
                    let j = choose|j: int| 0 <= j < k.files_spec().len() && k.files_spec()[j] == name@;
                    assert(files@[j]@ == name@);
                }
            }
            assert(k.files_spec().len() == 2);
            assert(files@.map_values(|s: &str| s@).len() == files@.len());
            assert(files@.len() == 2);
            assert(files@[0]@ == k.files_spec()[0] && files@[1]@ == k.files_spec()[1]);
            let mut msg = String::new();
            crate::text::append_str(&mut msg, "unsupported dependency file '");
            crate::text::append_str(&mut msg, name.as_str());
            crate::text::append_str(&mut msg, "'; expected one of: ");
            crate::text::append_str(&mut msg, files[0]);
            crate::text::append_str(&mut msg, ", ");
            crate::text::append_str(&mut msg, files[1]);
            assert(reg@ == trim_spec(registry@));
            assert(registry_for_spec(reg@) == Some(k));
            assert(t@ == trim_spec(p@));
            assert(msg@ =~= "unsupported dependency file '"@ + name@ + "'; expected one of: "@
                + join_files(k.files_spec()));
            Err(msg)
        },
        PathKind::Other => Err("path must point to a regular file or directory".to_owned()),
        _ => {
            assert(reg@ == trim_spec(registry@));
            assert(registry_for_spec(reg@) == Some(k));
            assert(t@ == trim_spec(p@));
            assert(t@.len() != 0);
            assert(kind != PathKind::File && kind != PathKind::Other);
            assert(validate_spec(registry@, crate::model::opt_str_view(path), kind) == Ok::<(), Seq<char>>(()));
            Ok(())
        },
    }
}

/// Relies on `std::path::Path::is_file`; what is on disk may change.
#[verifier::external_body]
fn path_is_file(path: &str) -> (r: bool) {
    std::path::Path::new(path).is_file()
}

/// Relies on `std::path::Path::is_dir`; what is on disk may change.
#[verifier::external_body]
fn path_is_dir(path: &str) -> (r: bool) {
    std::path::Path::new(path).is_dir()
}

/// Relies on `std::path::Path::exists`; what is on disk may change.
#[verifier::external_body]
fn path_exists(path: &str) -> (r: bool) {
    std::path::Path::new(path).exists()
}

/// What the file system says of `path` now.
pub fn path_kind(path: &str) -> (r: PathKind) {
    if path_is_file(path) {
        PathKind::File
    } else if path_is_dir(path) {
        PathKind::Directory
    } else if path_exists(path) {
        PathKind::Other
    } else {
        PathKind::Missing
    }
}

/// Validates a lockfile request: the registry must be known and have a
/// parser; a given path must not be blank, and an existing regular file
/// must carry one of the registry's dependency-file names.
pub fn validate_lockfile_request(registry: &str, path: Option<&str>) -> (r: Result<(), String>)
    ensures
        exists|kind: PathKind|
            match r {
                Ok(()) => validate_spec(registry@, crate::model::opt_str_view(path), kind) == Ok::<(), Seq<char>>(()),
                Err(e) => validate_spec(registry@, crate::model::opt_str_view(path), kind) == Err::<(), Seq<char>>(e@),
            },
{
    let kind = match path {
        Some(p) => {
            let t = trim_string_of(p);
            path_kind(t.as_str())
        },
        None => PathKind::Missing,
    };
    validate_lockfile_request_for(registry, path, kind)
}

fn trim_string_of(s: &str) -> (r: String)
    ensures
        r@ == trim_spec(s@),
{
    crate::text::trim_string(s)
}

pub open spec fn join_names(files: Seq<&str>) -> Seq<char>
    decreases files.len(),
{
    if files.len() == 0 {
        seq![]
    } else if files.len() == 1 {
        files[0]@
    } else {
        join_names(files.drop_last()) + ", "@ + files.last()@
    }
}

/// Index of the first supported file that is present.
pub open spec fn first_present(present: Seq<bool>) -> Option<int> {
    if exists|i: int| 0 <= i < present.len() && present[i] {
        Some(choose|i: int| 0 <= i < present.len() && present[i] && forall|j: int| 0 <= j < i ==> !present[j])
    } else {
        None
    }
}

/// Which dependency file a lockfile request reads. `kind` is what the file
/// system says of `path`; `present[i]` whether `path/supported[i]` is a
/// regular file. A file must carry a supported name; a directory is
/// searched in the order of `supported`.
pub fn resolve_input_with(
    path: &str,
    kind: PathKind,
    supported: &[&str],
    present: &[bool],
) -> (r: Result<String, crate::model::LockfileError>)
    requires
        present@.len() == supported@.len(),
    ensures
        kind == PathKind::File && supported@.map_values(|s: &str| s@).contains(file_name_spec(path@))
            ==> (r matches Ok(p) && p@ == path@),
        kind == PathKind::File && !supported@.map_values(|s: &str| s@).contains(file_name_spec(path@))
            ==> (r matches Err(crate::model::LockfileError::UnsupportedFile { file_name, expected })
            && file_name@ == file_name_spec(path@) && expected@ == join_names(supported@)),
        kind == PathKind::Other ==> r matches Err(crate::model::LockfileError::InvalidInputPath { .. }),
        kind == PathKind::Missing ==> r matches Err(crate::model::LockfileError::InputPathDoesNotExist { .. }),
        kind == PathKind::Directory ==> match first_present(present@) {
            Some(i) => (r matches Ok(p) && p@ == path@ + seq!['/'] + supported@[i]@),
            None => r matches Err(crate::model::LockfileError::NoSupportedDependencyFile { .. }),
        },
{
    let expected = join_names_exec(supported);
    match kind {
        PathKind::File => {
            let pc = chars_of(path);
            let name_chars = file_name_of(pc.as_slice());
            let name = string_of(name_chars.as_slice());
            let mut i: usize = 0;
            while i < supported.len()
                invariant
                    kind == PathKind::File,
                    i <= supported@.len(),
                    name@ == file_name_spec(path@),
                    expected@ == join_names(supported@),
                    forall|j: int| 0 <= j < i ==> (#[trigger] supported@[j])@ != name@,
                decreases supported@.len() - i,
            {
                if eq_str(supported[i], name.as_str()) {
                    assert(supported@.map_values(|s: &str| s@)[i as int] == name@);
                    return Ok(path.to_owned());
                }
                i = i + 1;
            }
            assert(!supported@.map_values(|s: &str| s@).contains(name@)) by {
                if supported@.map_values(|s: &str| s@).contains(name@) {
                    let names = supported@.map_values(|s: &str| s@);
                    let j = choose|j: int| 0 <= j < names.len() && #[trigger] names[j] == name@;
                    assert(supported@[j]@ == name@);
                }
            }
            Err(crate::model::LockfileError::UnsupportedFile { file_name: name, expected })
        },
        PathKind::Other => Err(crate::model::LockfileError::InvalidInputPath { path: path.to_owned() }),
        PathKind::Missing => Err(crate::model::LockfileError::InputPathDoesNotExist { path: path.to_owned() }),
        PathKind::Directory => {
            let mut i: usize = 0;
            while i < present.len()
                invariant
                    kind == PathKind::Directory,
                    i <= present@.len(),
                    present@.len() == supported@.len(),
                    forall|j: int| 0 <= j < i ==> !present@[j],
                decreases present@.len() - i,
            {
                if present[i] {
                    proof {
                        let k = choose|k: int| 0 <= k < present@.len() && present@[k] && forall|j: int| 0 <= j < k ==> !present@[j];
                        assert(0 <= k < present@.len() && present@[k] && forall|j: int| 0 <= j < k ==> !present@[j]);
                        if k < i {
                        } else if k > i {
                            assert(!present@[i as int]);
                        }
                    }
                    let mut out = path.to_owned();
                    crate::text::push_char(&mut out, '/');
                    crate::text::append_str(&mut out, supported[i]);
                    return Ok(out);
                }
                i = i + 1;
            }
            Err(crate::model::LockfileError::NoSupportedDependencyFile { expected, path: path.to_owned() })
        },
    }
}

fn join_names_exec(files: &[&str]) -> (r: String)
    ensures
        r@ == join_names(files@),
{
    let mut out = String::new();
    let mut i: usize = 0;
    while i < files.len()
        invariant
            i <= files@.len(),
            out@ == join_names(files@.take(i as int)),
        decreases files@.len() - i,
    {
        assert(files@.take(i + 1).drop_last() =~= files@.take(i as int));
        if i > 0 {
            crate::text::append_str(&mut out, ", ");
        }
        crate::text::append_str(&mut out, files[i]);
        i = i + 1;
        assert(i == 1 ==> out@ =~= files@.take(1)[0]@);
    }
    assert(files@.take(i as int) =~= files@);
    out
}

} // verus!
