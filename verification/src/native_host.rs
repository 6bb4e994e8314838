//! The browser's native messaging host: how it is registered, and how it
//! answers.

use vstd::prelude::*;

use crate::bytes::{le_bytes_u32, le_value_u32};
use crate::files::Platform;
use crate::json::{json_list, json_object, json_pretty, json_text, keys_of, object_of, Json};
use crate::text::{decimal_text, join2, join3, str_eq, str_same_ignoring_ascii_case};

verus! {

/// The name that the browser knows the host by.
pub const CHROME_HOST_NAME: &'static str = "wtf.tonho.omniget";

/// The extension that may talk to the host.
pub const CHROME_EXTENSION_ID: &'static str = "dkjelkhaaakffpghdfalobccaaipajip";

/// The name of the host's program, without extension.
pub const HOST_BINARY_STEM: &'static str = "omniget-native-host";

/// The name of the file that says where the app is.
pub const HOST_CONFIG_NAME: &'static str = "native-host-config.json";

/// The name of the host's manifest.
pub const HOST_MANIFEST_NAME: &'static str = "wtf.tonho.omniget.json";

/// What the manifest says the host is.
pub const HOST_DESCRIPTION: &'static str = "OmniGet native host for Chrome";

/// The directory that holds the host's files.
pub const INTEGRATION_DIR_NAME: &'static str = "chrome-native-host";

/// The longest message that is read; the browser has the same limit.
pub const MAX_MESSAGE_LENGTH: u32 = 1_048_576;

/// A path: a directory and the names that lead on from it.
pub struct HostPath {
    pub base: String,
    pub parts: Vec<String>,
}

/// A path by the characters of its parts.
#[verifier::ext_equal]
pub struct HostPathView {
    pub base: Seq<char>,
    pub parts: Seq<Seq<char>>,
}

impl View for HostPath {
    type V = HostPathView;

    open spec fn view(&self) -> HostPathView {
        HostPathView { base: self.base@, parts: self.parts@.map_values(|s: String| s@) }
    }
}

impl HostPathView {
    /// The path of `name` in this directory.
    pub open spec fn join(self, name: Seq<char>) -> HostPathView {
        HostPathView { base: self.base, parts: self.parts.push(name) }
    }
}

/// The path that is just `base`.
pub open spec fn path_at(base: Seq<char>) -> HostPathView {
    HostPathView { base, parts: Seq::empty() }
}

impl HostPath {
    /// The path that is just `base`.
    pub fn new(base: &str) -> (r: HostPath)
        ensures
            r@ == path_at(base@),
    {
        let r = HostPath { base: base.to_owned(), parts: Vec::new() };
        proof {
            assert(r@.parts =~= Seq::<Seq<char>>::empty());
        }
        r
    }

    /// The same path once more.
    pub fn duplicate(&self) -> (r: HostPath)
        ensures
            r@ == self@,
    {
        let mut parts: Vec<String> = Vec::new();
        let mut i: usize = 0;
        while i < self.parts.len()
            invariant
                i <= self.parts@.len(),
                parts@.len() == i,
                forall|j: int| 0 <= j < i ==> #[trigger] parts@[j]@ == self.parts@[j]@,
            decreases self.parts.len() - i,
        {
            parts.push(self.parts[i].clone());
            i += 1;
        }
        let r = HostPath { base: self.base.clone(), parts };
        proof {
            assert(r@.parts =~= self@.parts);
        }
        r
    }

    /// The path of `name` in this directory.
    pub fn join(&self, name: &str) -> (r: HostPath)
        ensures
            r@ == self@.join(name@),
    {
        let mut r: HostPath = self.duplicate();
        r.parts.push(name.to_owned());
        proof {
            assert(r@.parts =~= self@.join(name@).parts);
        }
        r
    }
}

/// The name of the host's program on a platform.
pub open spec fn host_copy(platform: Platform) -> Seq<char> {
    if platform == Platform::Windows {
        "omniget-native-host.exe"@
    } else {
        "omniget-native-host"@
    }
}

/// The name of the host's program on a platform.
pub fn host_copy_name(platform: Platform) -> (r: &'static str)
    ensures
        r@ == host_copy(platform),
{
    if platform == Platform::Windows {
        "omniget-native-host.exe"
    } else {
        "omniget-native-host"
    }
}

/// True when a program runs as the host: its name without extension is the
/// host's, in capitals or not.
pub fn should_run_as_native_host(exe_stem: Option<&str>) -> (r: bool)
    ensures
        r == (exe_stem matches Some(stem) && crate::text::same_ignoring_ascii_case(
            stem@,
            HOST_BINARY_STEM@,
        )),
{
    match exe_stem {
        Some(stem) => str_same_ignoring_ascii_case(stem, HOST_BINARY_STEM),
        None => false,
    }
}

/// The host's program is recognised as the host under the name that it is
/// copied to.
pub proof fn law_copy_runs_as_host(platform: Platform)
    ensures
        crate::text::same_ignoring_ascii_case(
            crate::files::file_stem(host_copy(platform)),
            HOST_BINARY_STEM@,
        ),
{
    reveal_strlit("omniget-native-host.exe");
    reveal_strlit("omniget-native-host");
    let name = host_copy(platform);
    reveal_with_fuel(crate::text::after_last, 24);
    if platform == Platform::Windows {
        assert(crate::files::last_dot(name) == 19);
        assert(crate::files::file_stem(name) =~= HOST_BINARY_STEM@);
    } else {
        assert(crate::files::last_dot(name) == -1);
        assert(crate::files::file_stem(name) =~= HOST_BINARY_STEM@);
    }
}

/// The directory for the host's files, below `app_data_dir` or, where there is
/// none, the current directory.
pub open spec fn integration_dir(app_data_dir: Option<Seq<char>>) -> HostPathView {
    path_at(
        match app_data_dir {
            Some(dir) => dir,
            None => "."@,
        },
    ).join(INTEGRATION_DIR_NAME@)
}

/// The directory for the host's files.
pub fn chrome_integration_dir(app_data_dir: Option<&str>) -> (r: HostPath)
    ensures
        r@ == integration_dir(
            match app_data_dir {
                Some(dir) => Some(dir@),
                None => None,
            },
        ),
{
    let base: &str = match app_data_dir {
        Some(dir) => dir,
        None => ".",
    };
    HostPath::new(base).join(INTEGRATION_DIR_NAME)
}

/// Where the browser looks for the manifest, below a directory that depends on
/// the platform.
pub open spec fn manifest_path_below(platform: Platform, base: HostPathView) -> HostPathView {
    match platform {
        Platform::Windows => base.join(HOST_MANIFEST_NAME@),
        Platform::MacOs => base.join("Google"@).join("Chrome"@).join("NativeMessagingHosts"@).join(
            HOST_MANIFEST_NAME@,
        ),
        _ => base.join("google-chrome"@).join("NativeMessagingHosts"@).join(HOST_MANIFEST_NAME@),
    }
}

/// Where the browser looks for the manifest, below a directory that depends on
/// the platform.
pub fn chrome_manifest_path_from_base(platform: Platform, base: &HostPath) -> (r: HostPath)
    requires
        platform != Platform::Other,
    ensures
        r@ == manifest_path_below(platform, base@),
{
    match platform {
        Platform::Windows => base.join(HOST_MANIFEST_NAME),
        Platform::MacOs => base.join("Google").join("Chrome").join("NativeMessagingHosts").join(
            HOST_MANIFEST_NAME,
        ),
        _ => base.join("google-chrome").join("NativeMessagingHosts").join(HOST_MANIFEST_NAME),
    }
}

/// Why the host cannot be registered, or cannot answer.
#[derive(Clone, Copy, Debug, PartialEq, Eq, Structural)]
pub enum HostError {
    NoConfigDir,
    NoDataDir,
    UnsupportedPlatform,
    RegistrationFailed,
    MessageTooLarge { length: u32 },
}

/// The text of a [`HostError`].
pub open spec fn error_text(e: HostError) -> Seq<char> {
    match e {
        HostError::NoConfigDir => "Could not resolve the Linux config directory for Chrome native host registration"@,
        HostError::NoDataDir => "Could not resolve the macOS Application Support directory for Chrome native host registration"@,
        HostError::UnsupportedPlatform => "Chrome native host registration is unsupported on this platform"@,
        HostError::RegistrationFailed => "Failed to register Chrome native host"@,
        HostError::MessageTooLarge { length } => "Native message too large ("@
            + crate::text::decimal(length as nat) + " bytes, max 1048576)"@,
    }
}

impl HostError {
    /// The error as a text.
    pub fn message(&self) -> (r: String)
        ensures
            r@ == error_text(*self),
    {
        match self {
            HostError::NoConfigDir => "Could not resolve the Linux config directory for Chrome native host registration".to_owned(),
            HostError::NoDataDir => "Could not resolve the macOS Application Support directory for Chrome native host registration".to_owned(),
            HostError::UnsupportedPlatform => "Chrome native host registration is unsupported on this platform".to_owned(),
            HostError::RegistrationFailed => "Failed to register Chrome native host".to_owned(),
            HostError::MessageTooLarge { length } => {
                let number: String = decimal_text(*length as u64);
                join3("Native message too large (", number.as_str(), " bytes, max 1048576)")
            },
        }
    }
}

/// The characters of an optional text.
pub open spec fn opt_view(s: Option<&str>) -> Option<Seq<char>> {
    match s {
        Some(t) => Some(t@),
        None => None,
    }
}

/// Where the manifest goes, or why it can go nowhere.
pub open spec fn manifest_path(
    platform: Platform,
    integration_dir: HostPathView,
    config_dir: Option<Seq<char>>,
    data_dir: Option<Seq<char>>,
) -> Result<HostPathView, HostError> {
    match platform {
        Platform::Windows => Ok(manifest_path_below(platform, integration_dir)),
        Platform::Linux => match config_dir {
            Some(dir) => Ok(manifest_path_below(platform, path_at(dir))),
            None => Err(HostError::NoConfigDir),
        },
        Platform::MacOs => match data_dir {
            Some(dir) => Ok(manifest_path_below(platform, path_at(dir))),
            None => Err(HostError::NoDataDir),
        },
        Platform::Other => Err(HostError::UnsupportedPlatform),
    }
}

/// Where the manifest goes, given the directory of the host's files and those
/// of the user's settings and data.
pub fn chrome_manifest_path(
    platform: Platform,
    integration_dir: &HostPath,
    config_dir: Option<&str>,
    data_dir: Option<&str>,
) -> (r: Result<HostPath, HostError>)
    ensures
        match manifest_path(platform, integration_dir@, opt_view(config_dir), opt_view(data_dir)) {
            Ok(path) => r matches Ok(p) && p@ == path,
            Err(e) => r == Err::<HostPath, HostError>(e),
        },
{
    match platform {
        Platform::Windows => Ok(chrome_manifest_path_from_base(platform, integration_dir)),
        Platform::Linux => match config_dir {
            Some(dir) => Ok(chrome_manifest_path_from_base(platform, &HostPath::new(dir))),
            None => Err(HostError::NoConfigDir),
        },
        Platform::MacOs => match data_dir {
            Some(dir) => Ok(chrome_manifest_path_from_base(platform, &HostPath::new(dir))),
            None => Err(HostError::NoDataDir),
        },
        Platform::Other => Err(HostError::UnsupportedPlatform),
    }
}

/// One step of the registration.
pub enum RegistrationStep {
    /// Make this directory.
    CreateDir(HostPath),
    /// Copy the program `source` to `dest`, where that is needed.
    CopyHost { source: HostPath, dest: HostPath },
    /// Write to `config` that the app is at `app_path`.
    WriteConfig { config: HostPath, app_path: String },
    /// Make the directory that this path is in.
    CreateParent(HostPath),
    /// Write the manifest of the program `host` here.
    WriteManifest { manifest: HostPath, host: HostPath },
    /// Tell the platform of this manifest.
    Register(HostPath),
    /// Give up.
    Fail(HostError),
}

/// A [`RegistrationStep`] by the characters of its paths.
#[verifier::ext_equal]
pub enum RegistrationStepView {
    CreateDir(HostPathView),
    CopyHost { source: HostPathView, dest: HostPathView },
    WriteConfig { config: HostPathView, app_path: Seq<char> },
    CreateParent(HostPathView),
    WriteManifest { manifest: HostPathView, host: HostPathView },
    Register(HostPathView),
    Fail(HostError),
}

impl View for RegistrationStep {
    type V = RegistrationStepView;

    open spec fn view(&self) -> RegistrationStepView {
        match *self {
            RegistrationStep::CreateDir(p) => RegistrationStepView::CreateDir(p@),
            RegistrationStep::CopyHost { source, dest } => {
                RegistrationStepView::CopyHost { source: source@, dest: dest@ }
            },
            RegistrationStep::WriteConfig { config, app_path } => {
                RegistrationStepView::WriteConfig { config: config@, app_path: app_path@ }
            },
            RegistrationStep::CreateParent(p) => RegistrationStepView::CreateParent(p@),
            RegistrationStep::WriteManifest { manifest, host } => {
                RegistrationStepView::WriteManifest { manifest: manifest@, host: host@ }
            },
            RegistrationStep::Register(p) => RegistrationStepView::Register(p@),
            RegistrationStep::Fail(e) => RegistrationStepView::Fail(e),
        }
    }
}

/// The steps that register the host, a copy of the program at `current_exe`. The
/// app that the host starts is that program itself. That the manifest can go
/// nowhere shows only after the host's own files were written.
pub open spec fn registration_steps(
    platform: Platform,
    current_exe: Seq<char>,
    app_data_dir: Option<Seq<char>>,
    config_dir: Option<Seq<char>>,
    data_dir: Option<Seq<char>>,
) -> Seq<RegistrationStepView> {
    let dir = integration_dir(app_data_dir);
    let host = dir.join(host_copy(platform));
    let files = seq![
        RegistrationStepView::CreateDir(dir),
        RegistrationStepView::CopyHost { source: path_at(current_exe), dest: host },
        RegistrationStepView::WriteConfig {
            config: dir.join(HOST_CONFIG_NAME@),
            app_path: current_exe,
        },
    ];
    match manifest_path(platform, dir, config_dir, data_dir) {
        Ok(manifest) => files + seq![
            RegistrationStepView::CreateParent(manifest),
            RegistrationStepView::WriteManifest { manifest, host },
            RegistrationStepView::Register(manifest),
        ],
        Err(e) => files + seq![RegistrationStepView::Fail(e)],
    }
}

/// The steps that register the host, in order, where the running program is at
/// `current_exe`.
pub fn ensure_registered(
    platform: Platform,
    current_exe: &str,
    app_data_dir: Option<&str>,
    config_dir: Option<&str>,
    data_dir: Option<&str>,
) -> (r: Vec<RegistrationStep>)
    ensures
        r@.map_values(|s: RegistrationStep| s@) == registration_steps(
            platform,
            current_exe@,
            opt_view(app_data_dir),
            opt_view(config_dir),
            opt_view(data_dir),
        ),
{
    let dir: HostPath = chrome_integration_dir(app_data_dir);
    let host: HostPath = dir.join(host_copy_name(platform));
    let config: HostPath = dir.join(HOST_CONFIG_NAME);
    let manifest: Result<HostPath, HostError> = chrome_manifest_path(
        platform,
        &dir,
        config_dir,
        data_dir,
    );
    let mut r: Vec<RegistrationStep> = Vec::new();
    r.push(RegistrationStep::CreateDir(dir));
    r.push(
        RegistrationStep::CopyHost { source: HostPath::new(current_exe), dest: host.duplicate() },
    );
    r.push(RegistrationStep::WriteConfig { config, app_path: current_exe.to_owned() });
    match manifest {
        Ok(path) => {
            r.push(RegistrationStep::CreateParent(path.duplicate()));
            r.push(RegistrationStep::WriteManifest { manifest: path.duplicate(), host });
            r.push(RegistrationStep::Register(path));
        },
        Err(e) => {
            r.push(RegistrationStep::Fail(e));
        },
    }
    proof {
        assert(r@.map_values(|s: RegistrationStep| s@) =~= registration_steps(
            platform,
            current_exe@,
            opt_view(app_data_dir),
            opt_view(config_dir),
            opt_view(data_dir),
        ));
    }
    r
}

/// Where the host looks for what says where the app is: beside itself.
pub fn host_config_path(exe_dir: Option<&str>) -> (r: HostPath)
    ensures
        r@ == host_config(
            match exe_dir {
                Some(dir) => path_at(dir@),
                None => path_at("."@),
            },
        ),
{
    let dir: &str = match exe_dir {
        Some(dir) => dir,
        None => ".",
    };
    HostPath::new(dir).join(HOST_CONFIG_NAME)
}

/// Where the host in directory `dir` looks for what says where the app is.
pub open spec fn host_config(dir: HostPathView) -> HostPathView {
    dir.join(HOST_CONFIG_NAME@)
}

/// What is registered fits together: the running program is what is copied, the
/// manifest is of the copy, it is written where it is registered, and where the
/// running program is, is written where the copy looks for it.
pub proof fn law_registration_fits(
    platform: Platform,
    current_exe: Seq<char>,
    app_data_dir: Option<Seq<char>>,
    config_dir: Option<Seq<char>>,
    data_dir: Option<Seq<char>>,
)
    ensures
        ({
            let steps = registration_steps(
                platform,
                current_exe,
                app_data_dir,
                config_dir,
                data_dir,
            );
            let host = integration_dir(app_data_dir).join(host_copy(platform));
            let host_dir = HostPathView { base: host.base, parts: host.parts.drop_last() };
            &&& steps[1] == (RegistrationStepView::CopyHost {
                source: path_at(current_exe),
                dest: host,
            })
            &&& steps[2] == (RegistrationStepView::WriteConfig {
                config: host_config(host_dir),
                app_path: current_exe,
            })
            &&& match manifest_path(
                platform,
                integration_dir(app_data_dir),
                config_dir,
                data_dir,
            ) {
                Ok(manifest) => {
                    &&& steps.len() == 6
                    &&& steps[4] == RegistrationStepView::WriteManifest { manifest, host }
                    &&& steps[5] == RegistrationStepView::Register(manifest)
                },
                Err(e) => steps.len() == 4 && steps[3] == RegistrationStepView::Fail(e),
            }
        }),
{
    let dir = integration_dir(app_data_dir);
    let host = dir.join(host_copy(platform));
    assert(host.parts.drop_last() =~= dir.parts);
}

/// True when a program at `source` has to be copied, given the sizes of the
/// files at both ends where they can be read.
pub fn should_copy_exe(source_len: Option<u64>, dest_len: Option<u64>) -> (r: bool)
    ensures
        r == (source_len is None || dest_len is None || source_len != dest_len),
{
    match (source_len, dest_len) {
        (Some(a), Some(b)) => a != b,
        _ => true,
    }
}

/// True when the running program has to be copied: it does not lie there
/// already, and does not have the size of what does.
pub fn copy_host_exe(same_path: bool, source_len: Option<u64>, dest_len: Option<u64>) -> (r: bool)
    ensures
        r == (!same_path && (source_len is None || dest_len is None || source_len != dest_len)),
{
    !same_path && should_copy_exe(source_len, dest_len)
}

/// The arguments of the command that tells the platform of a manifest; `None`
/// where the platform needs no telling.
pub open spec fn registration_command(platform: Platform, manifest_path: Seq<char>) -> Option<
    Seq<Seq<char>>,
> {
    if platform == Platform::Windows {
        Some(
            seq![
                "add"@,
                "HKCU\\Software\\Google\\Chrome\\NativeMessagingHosts\\"@ + CHROME_HOST_NAME@,
                "/ve"@,
                "/t"@,
                "REG_SZ"@,
                "/d"@,
                manifest_path,
                "/f"@,
            ],
        )
    } else {
        None
    }
}

/// The arguments of the command that tells the platform of a manifest; `None`
/// where the platform needs no telling.
pub fn register_host_manifest(platform: Platform, manifest_path: &str) -> (r: Option<Vec<String>>)
    ensures
        match registration_command(platform, manifest_path@) {
            Some(args) => r matches Some(v) && v@.map_values(|s: String| s@) == args,
            None => r is None,
        },
{
    if platform == Platform::Windows {
        let mut args: Vec<String> = Vec::new();
        args.push("add".to_owned());
        args.push(
            join2("HKCU\\Software\\Google\\Chrome\\NativeMessagingHosts\\", CHROME_HOST_NAME),
        );
        args.push("/ve".to_owned());
        args.push("/t".to_owned());
        args.push("REG_SZ".to_owned());
        args.push("/d".to_owned());
        args.push(manifest_path.to_owned());
        args.push("/f".to_owned());
        proof {
            assert(args@.map_values(|s: String| s@) =~= registration_command(
                platform,
                manifest_path@,
            )->0);
        }
        Some(args)
    } else {
        None
    }
}

/// What the end of that command means.
pub fn registration_outcome(success: bool) -> (r: Result<(), HostError>)
    ensures
        r == (if success {
            Ok::<(), HostError>(())
        } else {
            Err::<(), HostError>(HostError::RegistrationFailed)
        }),
{
    if success {
        Ok(())
    } else {
        Err(HostError::RegistrationFailed)
    }
}

/// The origin of the extension that may talk to the host.
pub open spec fn allowed_origin() -> Seq<char> {
    "chrome-extension://"@ + CHROME_EXTENSION_ID@ + "/"@
}

/// The manifest of the program at `host_exe`.
pub open spec fn manifest_document(host_exe: Seq<char>) -> Json {
    Json::Object(
        Map::<Seq<char>, Json>::empty().insert("name"@, Json::Text(CHROME_HOST_NAME@)).insert(
            "description"@,
            Json::Text(HOST_DESCRIPTION@),
        ).insert("path"@, Json::Text(host_exe)).insert("type"@, Json::Text("stdio"@)).insert(
            "allowed_origins"@,
            Json::List(seq![Json::Text(allowed_origin())]),
        ),
    )
}

/// The manifest of the program at `host_exe`.
pub fn build_host_manifest(host_exe: &str) -> (r: serde_json::Value)
    ensures
        crate::json::json_contents(r) == manifest_document(host_exe@),
{
    let mut origins: Vec<serde_json::Value> = Vec::new();
    origins.push(json_text(join3("chrome-extension://", CHROME_EXTENSION_ID, "/")));
    proof {
        assert(origins@.map_values(|v: serde_json::Value| crate::json::json_contents(v)) =~= seq![
            Json::Text(allowed_origin()),
        ]);
    }
    let mut fields: Vec<(String, serde_json::Value)> = Vec::new();
    proof {
        assert(object_of(fields@) =~= Map::<Seq<char>, Json>::empty());
        assert(keys_of(fields@) =~= Seq::<Seq<char>>::empty());
    }
    add_field(&mut fields, "name", json_text(CHROME_HOST_NAME.to_owned()));
    add_field(&mut fields, "description", json_text(HOST_DESCRIPTION.to_owned()));
    add_field(&mut fields, "path", json_text(host_exe.to_owned()));
    add_field(&mut fields, "type", json_text("stdio".to_owned()));
    add_field(&mut fields, "allowed_origins", json_list(origins));
    proof {
        lemma_manifest_keys_differ();
        assert(keys_of(fields@) =~= manifest_keys());
    }
    json_object(fields)
}

/// The keys of a manifest.
spec fn manifest_keys() -> Seq<Seq<char>> {
    seq!["name"@, "description"@, "path"@, "type"@, "allowed_origins"@]
}

proof fn lemma_manifest_keys_differ()
    ensures
        manifest_keys().no_duplicates(),
{
    reveal_strlit("name");
    reveal_strlit("description");
    reveal_strlit("path");
    reveal_strlit("type");
    reveal_strlit("allowed_origins");
    let keys = manifest_keys();
    // The first letters differ.
    assert forall|i: int, j: int| 0 <= i < keys.len() && 0 <= j < keys.len() && i != j implies keys[i]
        != keys[j] by {
        assert(keys[i][0] != keys[j][0]);
    }
}

/// Adds a field to those of an object.
fn add_field(fields: &mut Vec<(String, serde_json::Value)>, key: &str, value: serde_json::Value)
    ensures
        object_of(final(fields)@) == object_of(old(fields)@).insert(
            key@,
            crate::json::json_contents(value),
        ),
        keys_of(final(fields)@) == keys_of(old(fields)@).push(key@),
{
    fields.push((key.to_owned(), value));
    proof {
        assert(fields@.drop_last() =~= old(fields)@);
        assert(keys_of(fields@) =~= keys_of(old(fields)@).push(key@));
    }
}

/// A document as it is written to its file.
fn print_document(v: &serde_json::Value) -> (r: Vec<u8>)
    ensures
        r@ == crate::json::pretty_json(crate::json::json_contents(*v)),
{
    json_pretty(v).unwrap()
}

/// What is written to the manifest of the program at `host_exe`.
pub fn write_host_manifest(host_exe: &str) -> (r: Vec<u8>)
    ensures
        r@ == crate::json::pretty_json(manifest_document(host_exe@)),
{
    let manifest: serde_json::Value = build_host_manifest(host_exe);
    print_document(&manifest)
}

/// What says that the app is at `app_path`.
pub open spec fn config_document(app_path: Seq<char>) -> Json {
    Json::Object(Map::<Seq<char>, Json>::empty().insert("app_path"@, Json::Text(app_path)))
}

/// What is written for the host to find the app at `app_path`.
pub fn write_host_config(app_path: &str) -> (r: Vec<u8>)
    ensures
        r@ == crate::json::pretty_json(config_document(app_path@)),
{
    let mut fields: Vec<(String, serde_json::Value)> = Vec::new();
    proof {
        assert(object_of(fields@) =~= Map::<Seq<char>, Json>::empty());
        assert(keys_of(fields@) =~= Seq::<Seq<char>>::empty());
    }
    add_field(&mut fields, "app_path", json_text(app_path.to_owned()));
    let config: serde_json::Value = json_object(fields);
    print_document(&config)
}

/// A request of the extension.
pub struct NativeHostRequest {
    pub kind: String,
    pub url: String,
}

/// The answer to one.
pub struct NativeHostResponse {
    pub ok: bool,
    pub code: Option<&'static str>,
    pub message: Option<String>,
}

/// An answer by its characters.
#[verifier::ext_equal]
pub struct ResponseView {
    pub ok: bool,
    pub code: Option<Seq<char>>,
    pub message: Option<Seq<char>>,
}

impl View for NativeHostResponse {
    type V = ResponseView;

    open spec fn view(&self) -> ResponseView {
        ResponseView {
            ok: self.ok,
            code: match self.code {
                Some(c) => Some(c@),
                None => None,
            },
            message: match self.message {
                Some(m) => Some(m@),
                None => None,
            },
        }
    }
}

/// The answer to a request that is refused.
pub open spec fn refusal(message: Seq<char>) -> ResponseView {
    ResponseView { ok: false, code: Some("INVALID_URL"@), message: Some(message) }
}

/// What is to be done about a request.
pub enum RequestDecision {
    /// Answer at once.
    Respond(NativeHostResponse),
    /// Start the app on this address, and answer how that went.
    Launch(String),
}

/// A [`RequestDecision`] by its characters.
pub enum RequestDecisionView {
    Respond(ResponseView),
    Launch(Seq<char>),
}

impl View for RequestDecision {
    type V = RequestDecisionView;

    open spec fn view(&self) -> RequestDecisionView {
        match *self {
            RequestDecision::Respond(response) => RequestDecisionView::Respond(response@),
            RequestDecision::Launch(url) => RequestDecisionView::Launch(url@),
        }
    }
}

/// What is to be done about a request of kind `kind` for `url`.
pub open spec fn request_decision(
    kind: Seq<char>,
    url: Seq<char>,
    url_is_external: bool,
) -> RequestDecisionView {
    if kind != "enqueue"@ {
        RequestDecisionView::Respond(refusal("Unsupported native host message"@))
    } else if !url_is_external {
        RequestDecisionView::Respond(refusal("The requested URL is invalid"@))
    } else {
        RequestDecisionView::Launch(url)
    }
}

/// Decides on a request. Whether its address is one that the app handles is
/// known beforehand.
pub fn handle_request(request: &NativeHostRequest, url_is_external: bool) -> (r: RequestDecision)
    ensures
        r@ == request_decision(request.kind@, request.url@, url_is_external),
{
    if !str_eq(request.kind.as_str(), "enqueue") {
        return RequestDecision::Respond(
            NativeHostResponse {
                ok: false,
                code: Some("INVALID_URL"),
                message: Some("Unsupported native host message".to_owned()),
            },
        );
    }
    if !url_is_external {
        return RequestDecision::Respond(
            NativeHostResponse {
                ok: false,
                code: Some("INVALID_URL"),
                message: Some("The requested URL is invalid".to_owned()),
            },
        );
    }
    RequestDecision::Launch(request.url.clone())
}

/// The answer once the app was started, or could not be, for the reason given.
pub open spec fn launch_answer(failure: Option<Seq<char>>) -> ResponseView {
    match failure {
        None => ResponseView { ok: true, code: None, message: None },
        Some(reason) => ResponseView {
            ok: false,
            code: Some("LAUNCH_FAILED"@),
            message: Some(reason),
        },
    }
}

/// The answer once the app was started, or could not be, for the reason given.
pub fn launch_response(failure: Option<&str>) -> (r: NativeHostResponse)
    ensures
        r@ == launch_answer(opt_view(failure)),
{
    match failure {
        None => NativeHostResponse { ok: true, code: None, message: None },
        Some(reason) => NativeHostResponse {
            ok: false,
            code: Some("LAUNCH_FAILED"),
            message: Some(reason.to_owned()),
        },
    }
}

/// The app is started for nothing but a request to enqueue an address that it
/// handles; every other request is refused with a reason, and an answer carries
/// a code and a message exactly when it is not the good news.
pub proof fn law_refusals(
    kind: Seq<char>,
    url: Seq<char>,
    url_is_external: bool,
    failure: Option<Seq<char>>,
)
    ensures
        match request_decision(kind, url, url_is_external) {
            RequestDecisionView::Launch(started) => kind == "enqueue"@ && url_is_external && started
                == url,
            RequestDecisionView::Respond(response) => {
                &&& kind != "enqueue"@ || !url_is_external
                &&& !response.ok
                &&& response.code == Some("INVALID_URL"@)
                &&& response.message is Some
            },
        },
        launch_answer(failure).ok <==> failure is None,
        launch_answer(failure).ok <==> launch_answer(failure).code is None,
        launch_answer(failure).ok <==> launch_answer(failure).message is None,
{
}

/// The length of the message that `header` announces, if it is not too long.
pub fn read_message(header: &[u8; 4]) -> (r: Result<u32, HostError>)
    ensures
        r == message_length(header@),
{
    let length: u32 = le_value_u32(header);
    proof {
        assert(header@.len() == 4);
        crate::bytes::law_be_bytes_of_value(header@.reverse());
        crate::bytes::lemma_byte_ranges();
    }
    if length > MAX_MESSAGE_LENGTH {
        Err(HostError::MessageTooLarge { length })
    } else {
        Ok(length)
    }
}

/// The length of the message that `header` announces, if it is not too long.
pub open spec fn message_length(header: Seq<u8>) -> Result<u32, HostError> {
    let length = crate::bytes::le_value(header) as u32;
    if length > MAX_MESSAGE_LENGTH {
        Err(HostError::MessageTooLarge { length })
    } else {
        Ok(length)
    }
}

/// A message as it goes over the pipe: its length, then itself.
pub open spec fn message_frame(payload: Seq<u8>) -> Seq<u8> {
    crate::bytes::le_bytes(payload.len() % 0x1_0000_0000, 4) + payload
}

/// A message as it goes over the pipe.
pub fn write_message(payload: &[u8]) -> (r: Vec<u8>)
    ensures
        r@ == message_frame(payload@),
{
    let length: u32 = (payload.len() as u64 % 0x1_0000_0000) as u32;
    let mut r: Vec<u8> = le_bytes_u32(length);
    r.extend_from_slice(payload);
    proof {
        assert(r@ =~= message_frame(payload@));
    }
    r
}

/// A message that is not too long is read as it was written: the first four
/// bytes announce it, and it is what follows them.
pub proof fn law_message_round_trip(payload: Seq<u8>)
    requires
        payload.len() <= MAX_MESSAGE_LENGTH,
    ensures
        message_length(message_frame(payload).take(4)) == Ok::<u32, HostError>(
            payload.len() as u32,
        ),
        message_frame(payload).skip(4) == payload,
{
    let n = payload.len();
    let header = crate::bytes::le_bytes(n, 4);
    crate::bytes::lemma_byte_ranges();
    crate::bytes::law_le_value_of_bytes(n, 4);
    assert(message_frame(payload).take(4) =~= header);
    assert(message_frame(payload).skip(4) =~= payload);
}

/// What happens while the host answers a request.
pub enum HostEvent {
    /// The first four bytes were read.
    Header([u8; 4]),
    /// The message was read; whether its address is one that the app handles is
    /// known.
    Request { request: NativeHostRequest, url_is_external: bool },
    /// The app was started, or could not be, for the reason given.
    Launched { failure: Option<String> },
    /// The answer was put into JSON.
    Encoded(Vec<u8>),
}

/// What the host does about it.
pub enum HostAction {
    /// Read a message of this many bytes.
    ReadPayload(u32),
    /// Start the app on this address.
    Launch(String),
    /// Put this answer into JSON.
    Respond(NativeHostResponse),
    /// Write these bytes and end.
    Send(Vec<u8>),
    /// End without an answer.
    Fail(HostError),
}

/// Decides what the host does next.
pub fn run_native_host(event: &HostEvent) -> (r: HostAction)
    ensures
        match *event {
            HostEvent::Header(header) => match message_length(header@) {
                Ok(length) => r == HostAction::ReadPayload(length),
                Err(e) => r == HostAction::Fail(e),
            },
            HostEvent::Request { request, url_is_external } => match request_decision(
                request.kind@,
                request.url@,
                url_is_external,
            ) {
                RequestDecisionView::Respond(answer) => r matches HostAction::Respond(a) && a@
                    == answer,
                RequestDecisionView::Launch(url) => r matches HostAction::Launch(u) && u@ == url,
            },
            HostEvent::Launched { failure } => r matches HostAction::Respond(a) && a@
                == launch_answer(
                match failure {
                    Some(reason) => Some(reason@),
                    None => None,
                },
            ),
            HostEvent::Encoded(payload) => r matches HostAction::Send(bytes) && bytes@
                == message_frame(payload@),
        },
{
    match event {
        HostEvent::Header(header) => match read_message(header) {
            Ok(length) => HostAction::ReadPayload(length),
            Err(e) => HostAction::Fail(e),
        },
        HostEvent::Request { request, url_is_external } => match handle_request(
            request,
            *url_is_external,
        ) {
            RequestDecision::Respond(answer) => HostAction::Respond(answer),
            RequestDecision::Launch(url) => HostAction::Launch(url),
        },
        HostEvent::Launched { failure } => match failure {
            Some(reason) => HostAction::Respond(launch_response(Some(reason.as_str()))),
            None => HostAction::Respond(launch_response(None)),
        },
        HostEvent::Encoded(payload) => HostAction::Send(write_message(payload.as_slice())),
    }
}

/// A path is seen as its base and its parts, all of them and in order.
pub proof fn law_path_view(p: HostPath, i: int)
    ensures
        p@.base == p.base@,
        p@.parts.len() == p.parts@.len(),
        0 <= i < p.parts@.len() ==> p@.parts[i] == p.parts@[i]@,
{
}

/// A path below a directory is that of the directory, and then the name.
pub proof fn law_path_join(dir: HostPathView, base: Seq<char>, name: Seq<char>)
    ensures
        dir.join(name).base == dir.base,
        dir.join(name).parts.len() == dir.parts.len() + 1,
        dir.join(name).parts.drop_last() == dir.parts,
        dir.join(name).parts.last() == name,
        path_at(base).base == base,
        path_at(base).parts.len() == 0,
{
    assert(dir.join(name).parts.drop_last() =~= dir.parts);
}

/// Where the host's files lie: in `chrome-native-host`, below the app's data or,
/// where that is not known, the current directory.
pub proof fn law_integration_dir(app_data_dir: Option<Seq<char>>)
    ensures
        ({
            let dir = integration_dir(app_data_dir);
            &&& dir.parts == seq!["chrome-native-host"@]
            &&& app_data_dir matches Some(d) ==> dir.base == d
            &&& app_data_dir is None ==> dir.base == seq!['.']
        }),
{
    reveal_strlit(".");
    assert("."@ =~= seq!['.']);
    assert(integration_dir(app_data_dir).parts =~= seq!["chrome-native-host"@]);
}

/// Where the manifest goes on each platform, and on which it can go nowhere.
pub proof fn law_manifest_place(
    dir: HostPathView,
    config_dir: Option<Seq<char>>,
    data_dir: Option<Seq<char>>,
)
    ensures
        manifest_path(Platform::Windows, dir, config_dir, data_dir) matches Ok(p) && p.base
            == dir.base && p.parts == dir.parts + seq!["wtf.tonho.omniget.json"@],
        match config_dir {
            Some(base) => manifest_path(Platform::Linux, dir, config_dir, data_dir) matches Ok(p)
                && p.base == base && p.parts == seq![
                "google-chrome"@,
                "NativeMessagingHosts"@,
                "wtf.tonho.omniget.json"@,
            ],
            None => manifest_path(Platform::Linux, dir, config_dir, data_dir) == Err::<
                HostPathView,
                HostError,
            >(HostError::NoConfigDir),
        },
        match data_dir {
            Some(base) => manifest_path(Platform::MacOs, dir, config_dir, data_dir) matches Ok(p)
                && p.base == base && p.parts == seq![
                "Google"@,
                "Chrome"@,
                "NativeMessagingHosts"@,
                "wtf.tonho.omniget.json"@,
            ],
            None => manifest_path(Platform::MacOs, dir, config_dir, data_dir) == Err::<
                HostPathView,
                HostError,
            >(HostError::NoDataDir),
        },
        manifest_path(Platform::Other, dir, config_dir, data_dir) == Err::<HostPathView, HostError>(
            HostError::UnsupportedPlatform,
        ),
{
    assert(dir.join("wtf.tonho.omniget.json"@).parts =~= dir.parts + seq![
        "wtf.tonho.omniget.json"@,
    ]);
    if let Some(base) = config_dir {
        assert(manifest_path_below(Platform::Linux, path_at(base)).parts =~= seq![
            "google-chrome"@,
            "NativeMessagingHosts"@,
            "wtf.tonho.omniget.json"@,
        ]);
    }
    if let Some(base) = data_dir {
        assert(manifest_path_below(Platform::MacOs, path_at(base)).parts =~= seq![
            "Google"@,
            "Chrome"@,
            "NativeMessagingHosts"@,
            "wtf.tonho.omniget.json"@,
        ]);
    }
}

/// The manifest goes below the directory that is given, whichever that is.
pub proof fn law_manifest_below(platform: Platform, base: HostPathView)
    requires
        platform != Platform::Other,
    ensures
        ({
            let p = manifest_path_below(platform, base);
            &&& p.base == base.base
            &&& base.parts.is_prefix_of(p.parts)
            &&& p.parts.last() == "wtf.tonho.omniget.json"@
            &&& p.parts.len() == base.parts.len() + match platform {
                Platform::Windows => 1,
                Platform::MacOs => 4,
                _ => 3int,
            }
        }),
{
    let p = manifest_path_below(platform, base);
    assert(p.parts.take(base.parts.len() as int) =~= base.parts);
}

/// What is registered is made in the right order: the directories before what
/// they hold, and the manifest before it is registered.
pub proof fn law_registration_order(
    platform: Platform,
    current_exe: Seq<char>,
    app_data_dir: Option<Seq<char>>,
    config_dir: Option<Seq<char>>,
    data_dir: Option<Seq<char>>,
)
    ensures
        ({
            let steps = registration_steps(
                platform,
                current_exe,
                app_data_dir,
                config_dir,
                data_dir,
            );
            let dir = integration_dir(app_data_dir);
            &&& steps[0] == RegistrationStepView::CreateDir(dir)
            &&& manifest_path(platform, dir, config_dir, data_dir) matches Ok(manifest) ==> steps[3]
                == RegistrationStepView::CreateParent(manifest)
            &&& steps[1] matches RegistrationStepView::CopyHost { source, dest } && {
                &&& source.base == current_exe && source.parts.len() == 0
                &&& dest.base == dir.base && dest.parts.drop_last() == dir.parts
                &&& dest.parts.last() == if platform == Platform::Windows {
                    "omniget-native-host.exe"@
                } else {
                    "omniget-native-host"@
                }
            }
            &&& steps[2] matches RegistrationStepView::WriteConfig { config, app_path } && {
                &&& config.base == dir.base && config.parts.drop_last() == dir.parts
                &&& config.parts.last() == "native-host-config.json"@
                &&& app_path == current_exe
            }
        }),
{
    let dir = integration_dir(app_data_dir);
    assert(dir.join(host_copy(platform)).parts.drop_last() =~= dir.parts);
    assert(dir.join(HOST_CONFIG_NAME@).parts.drop_last() =~= dir.parts);
}

/// The host looks for its config right beside itself.
pub proof fn law_host_config_place(dir: HostPathView)
    ensures
        host_config(dir).base == dir.base,
        host_config(dir).parts == dir.parts.push("native-host-config.json"@),
{
}

/// The config names the app's path and nothing else, unchanged.
pub proof fn law_config_names_the_app(app_path: Seq<char>)
    ensures
        config_document(app_path) matches Json::Object(fields) && {
            &&& forall|key: Seq<char>| #[trigger] fields.contains_key(key) <==> key == "app_path"@
            &&& fields["app_path"@] == Json::Text(app_path)
        },
{
}

/// The manifest names the program's path, unchanged, and the host; it has these
/// five fields and no other, and lets in the one extension.
pub proof fn law_manifest_names_the_host(host_exe: Seq<char>)
    ensures
        manifest_document(host_exe) matches Json::Object(fields) && {
            &&& forall|key: Seq<char>| #[trigger]
                fields.contains_key(key) <==> key == "name"@ || key == "description"@ || key
                    == "path"@ || key == "type"@ || key == "allowed_origins"@
            &&& fields["path"@] == Json::Text(host_exe)
            &&& fields["name"@] == Json::Text("wtf.tonho.omniget"@)
            &&& fields["description"@] == Json::Text("OmniGet native host for Chrome"@)
            &&& fields["type"@] == Json::Text("stdio"@)
            &&& fields["allowed_origins"@] matches Json::List(origins) && origins.len() == 1
                && origins[0] == Json::Text(
                "chrome-extension://dkjelkhaaakffpghdfalobccaaipajip/"@,
            )
        },
{
    lemma_manifest_keys_differ();
    let keys = manifest_keys();
    assert(keys[0] != keys[1] && keys[0] != keys[2] && keys[0] != keys[3] && keys[0] != keys[4]);
    assert(keys[1] != keys[2] && keys[1] != keys[3] && keys[1] != keys[4]);
    assert(keys[2] != keys[3] && keys[2] != keys[4] && keys[3] != keys[4]);
    reveal_strlit("chrome-extension://");
    reveal_strlit("dkjelkhaaakffpghdfalobccaaipajip");
    reveal_strlit("/");
    reveal_strlit("chrome-extension://dkjelkhaaakffpghdfalobccaaipajip/");
    assert(allowed_origin() =~= "chrome-extension://dkjelkhaaakffpghdfalobccaaipajip/"@);
}

/// Windows, and no other platform, is told where the manifest is, in full and
/// under the host's name.
pub proof fn law_registration_command(platform: Platform, manifest_path: Seq<char>)
    ensures
        registration_command(platform, manifest_path) is Some <==> platform == Platform::Windows,
        registration_command(platform, manifest_path) matches Some(args) ==> {
            &&& args.len() == 8
            &&& args[0] == "add"@
            &&& args[1]
                == "HKCU\\Software\\Google\\Chrome\\NativeMessagingHosts\\wtf.tonho.omniget"@
            &&& args[2] == "/ve"@
            &&& args[3] == "/t"@ && args[4] == "REG_SZ"@
            &&& args[5] == "/d"@ && args[6] == manifest_path
            &&& args[7] == "/f"@
        },
{
    reveal_strlit("HKCU\\Software\\Google\\Chrome\\NativeMessagingHosts\\");
    reveal_strlit("wtf.tonho.omniget");
    reveal_strlit(
        "HKCU\\Software\\Google\\Chrome\\NativeMessagingHosts\\wtf.tonho.omniget",
    );
    assert("HKCU\\Software\\Google\\Chrome\\NativeMessagingHosts\\"@ + CHROME_HOST_NAME@
        =~= "HKCU\\Software\\Google\\Chrome\\NativeMessagingHosts\\wtf.tonho.omniget"@);
}

/// What a request is answered: it is refused for its kind before its address is
/// looked at; a start that failed is answered with the reason, in full.
pub proof fn law_answers(
    kind: Seq<char>,
    url: Seq<char>,
    url_is_external: bool,
    reason: Seq<char>,
)
    ensures
        kind != "enqueue"@ ==> (request_decision(kind, url, url_is_external) matches
            RequestDecisionView::Respond(a) && !a.ok && a.code == Some("INVALID_URL"@)
            && a.message == Some("Unsupported native host message"@)),
        kind == "enqueue"@ && !url_is_external ==> (request_decision(kind, url, url_is_external)
            matches RequestDecisionView::Respond(a) && !a.ok && a.code == Some("INVALID_URL"@)
            && a.message == Some("The requested URL is invalid"@)),
        kind == "enqueue"@ && url_is_external ==> request_decision(kind, url, url_is_external)
            == RequestDecisionView::Launch(url),
        launch_answer(None).ok && launch_answer(None).code is None && launch_answer(
            None,
        ).message is None,
        !launch_answer(Some(reason)).ok && launch_answer(Some(reason)).code == Some(
            "LAUNCH_FAILED"@,
        ) && launch_answer(Some(reason)).message == Some(reason),
{
}

/// An answer is seen as it is.
pub proof fn law_response_view(a: NativeHostResponse)
    ensures
        a@.ok == a.ok,
        a@.code is Some <==> a.code is Some,
        a.code matches Some(c) ==> a@.code == Some(c@),
        a@.message is Some <==> a.message is Some,
        a.message matches Some(m) ==> a@.message == Some(m@),
{
}

/// The four bytes before a message write its length, least significant first;
/// every length up to one mebibyte is read, and no greater one.
pub proof fn law_message_length(header: Seq<u8>)
    requires
        header.len() == 4,
    ensures
        ({
            let n = header[0] + header[1] * 0x100 + header[2] * 0x1_0000 + header[3] * 0x100_0000;
            if n <= 1_048_576 {
                message_length(header) == Ok::<u32, HostError>(n as u32)
            } else {
                message_length(header) == Err::<u32, HostError>(
                    HostError::MessageTooLarge { length: n as u32 },
                )
            }
        }),
{
    crate::bytes::law_le_value_of_four(header);
}

/// What goes over the pipe is the length of a message in four bytes, least
/// significant first, as far as that fits, and then the message, all of it.
pub proof fn law_message_frame(payload: Seq<u8>)
    ensures
        ({
            let f = message_frame(payload);
            &&& f.len() == 4 + payload.len()
            &&& f[0] + f[1] * 0x100 + f[2] * 0x1_0000 + f[3] * 0x100_0000 == payload.len()
                % 0x1_0000_0000
            &&& f.skip(4) == payload
        }),
{
    let n = payload.len() % 0x1_0000_0000;
    let header = crate::bytes::le_bytes(n, 4);
    crate::bytes::lemma_byte_ranges();
    crate::bytes::law_le_value_of_bytes(n, 4);
    crate::bytes::law_le_value_of_four(header);
    assert(message_frame(payload).skip(4) =~= payload);
}

/// A message that is too long is reported with its length, in full.
pub proof fn law_too_large_text(length: u32)
    ensures
        ({
            let text = error_text(HostError::MessageTooLarge { length });
            let from = "Native message too large ("@.len() as int;
            let to = text.len() - " bytes, max 1048576)"@.len();
            &&& from < to
            &&& text.take(from) == "Native message too large ("@
            &&& crate::text::decimal_value(text.subrange(from, to)) == length
            &&& text.skip(to) == " bytes, max 1048576)"@
        }),
{
    let number = crate::text::decimal(length as nat);
    crate::text::law_decimal_spells(length as nat);
    let text = error_text(HostError::MessageTooLarge { length });
    let from = "Native message too large ("@.len() as int;
    let to = text.len() - " bytes, max 1048576)"@.len();
    assert(text.take(from) =~= "Native message too large ("@);
    assert(text.subrange(from, to) =~= number);
    assert(text.skip(to) =~= " bytes, max 1048576)"@);
}

/// Texts, steps and decisions are seen with all that they carry.
pub proof fn law_host_views(text: Option<&str>, step: RegistrationStep, decision: RequestDecision)
    ensures
        opt_view(text) is Some <==> text is Some,
        text matches Some(t) ==> opt_view(text) == Some(t@),
        match step {
            RegistrationStep::CreateDir(p) => step@ == RegistrationStepView::CreateDir(p@),
            RegistrationStep::CopyHost { source, dest } => step@ == (
            RegistrationStepView::CopyHost { source: source@, dest: dest@ }),
            RegistrationStep::WriteConfig { config, app_path } => step@ == (
            RegistrationStepView::WriteConfig { config: config@, app_path: app_path@ }),
            RegistrationStep::CreateParent(p) => step@ == RegistrationStepView::CreateParent(p@),
            RegistrationStep::WriteManifest { manifest, host } => step@ == (
            RegistrationStepView::WriteManifest { manifest: manifest@, host: host@ }),
            RegistrationStep::Register(p) => step@ == RegistrationStepView::Register(p@),
            RegistrationStep::Fail(e) => step@ == RegistrationStepView::Fail(e),
        },
        match decision {
            RequestDecision::Respond(a) => decision@ == RequestDecisionView::Respond(a@),
            RequestDecision::Launch(url) => decision@ == RequestDecisionView::Launch(url@),
        },
{
}

} // verus!
