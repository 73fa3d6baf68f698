//! What a caller asks for: the configuration of a task, and its builder.

use crate::reason::Reason;
use crate::strmap::StringMap;
use std::collections::HashSet;
use vstd::prelude::*;

verus! {

/// Download or upload. `Any` is the wildcard of filters and permissions.
#[derive(Clone, Copy, PartialEq, Eq, Structural, Debug)]
pub enum Action {
    Download,
    Upload,
    Any,
}

/// Whether a task runs only while its application is in front of the user.
#[derive(Clone, Copy, PartialEq, Eq, Structural, Debug, Hash)]
pub enum Mode {
    BackGround,
    FrontEnd,
    Any,
}

/// Selects the legacy (`API9`) or the current (`API10`) behaviour.
#[derive(Clone, Copy, PartialEq, Eq, Structural, Debug)]
pub enum Version {
    API9,
    API10,
}

/// The kind of network that a task accepts.
#[derive(Clone, Copy, PartialEq, Eq, Structural, Debug)]
pub enum NetworkConfig {
    Any,
    Wifi,
    Cellular,
}

/// The kind of network that the device is on.
#[derive(Clone, Copy, PartialEq, Eq, Structural, Debug)]
pub enum NetworkType {
    Other,
    Wifi,
    Cellular,
}

/// The network that the device is on.
#[derive(Clone, Copy, PartialEq, Eq, Structural, Debug)]
pub struct NetworkInfo {
    pub network_type: NetworkType,
    pub is_metered: bool,
    pub is_roaming: bool,
}

/// Whether the device is on a network, and on which.
#[derive(Clone, Copy, PartialEq, Eq, Structural, Debug)]
pub enum NetworkState {
    Offline,
    Online(NetworkInfo),
}

/// The slowest transfer that a task accepts: `speed` bytes per second over
/// `duration` seconds.
#[derive(Clone, Copy, PartialEq, Eq, Structural, Debug)]
pub struct MinSpeed {
    pub speed: i64,
    pub duration: i64,
}

/// The time limits of a task, in seconds.
#[derive(Clone, Copy, PartialEq, Eq, Structural, Debug)]
pub struct Timeout {
    pub connection_timeout: u64,
    pub total_timeout: u64,
}

impl Default for MinSpeed {
    fn default() -> (r: MinSpeed)
        ensures
            r == (MinSpeed { speed: 0, duration: 0 }),
    {
        MinSpeed { speed: 0, duration: 0 }
    }
}

impl Default for Timeout {
    fn default() -> (r: Timeout)
        ensures
            r == (Timeout { connection_timeout: 0, total_timeout: 0 }),
    {
        Timeout { connection_timeout: 0, total_timeout: 0 }
    }
}

/// The part of a configuration that is made of plain values.
#[derive(Clone, Copy, PartialEq, Eq, Structural, Debug)]
pub struct CommonTaskConfig {
    pub task_id: u32,
    pub uid: u64,
    pub token_id: u64,
    pub action: Action,
    pub mode: Mode,
    pub cover: bool,
    pub network_config: NetworkConfig,
    pub metered: bool,
    pub roaming: bool,
    pub retry: bool,
    pub redirect: bool,
    pub index: u32,
    pub begins: u64,
    pub ends: i64,
    pub gauge: bool,
    pub precise: bool,
    pub priority: u32,
    pub background: bool,
    pub multipart: bool,
    pub min_speed: MinSpeed,
    pub timeout: Timeout,
}

/// One field of a form that an upload sends along.
pub struct FormItem {
    pub name: String,
    pub value: String,
}

pub struct FormItemView {
    pub name: Seq<char>,
    pub value: Seq<char>,
}

impl View for FormItem {
    type V = FormItemView;

    open spec fn view(&self) -> FormItemView {
        FormItemView { name: self.name@, value: self.value@ }
    }
}

/// One file of a task. A user file is handed over as an open descriptor; any
/// other is named by its path.
pub struct FileSpec {
    pub name: String,
    pub path: String,
    pub file_name: String,
    pub mime_type: String,
    pub is_user_file: bool,
    pub fd: Option<i32>,
}

pub struct FileSpecView {
    pub name: Seq<char>,
    pub path: Seq<char>,
    pub file_name: Seq<char>,
    pub mime_type: Seq<char>,
    pub is_user_file: bool,
    pub fd: Option<i32>,
}

impl View for FileSpec {
    type V = FileSpecView;

    open spec fn view(&self) -> FileSpecView {
        FileSpecView {
            name: self.name@,
            path: self.path@,
            file_name: self.file_name@,
            mime_type: self.mime_type@,
            is_user_file: self.is_user_file,
            fd: self.fd,
        }
    }
}

impl FormItem {
    pub fn duplicate(&self) -> (r: FormItem)
        ensures
            r@ == self@,
    {
        FormItem { name: self.name.clone(), value: self.value.clone() }
    }
}

impl FileSpec {
    /// The entry of a file that the caller opened itself.
    pub fn user_file(fd: i32) -> (r: FileSpec)
        ensures
            r@ == (FileSpecView {
                name: "file"@,
                path: ""@,
                file_name: ""@,
                mime_type: ""@,
                is_user_file: true,
                fd: Some(fd),
            }),
    {
        FileSpec {
            name: "file".to_owned(),
            path: "".to_owned(),
            file_name: "".to_owned(),
            mime_type: "".to_owned(),
            is_user_file: true,
            fd: Some(fd),
        }
    }

    pub fn duplicate(&self) -> (r: FileSpec)
        ensures
            r@ == self@,
    {
        FileSpec {
            name: self.name.clone(),
            path: self.path.clone(),
            file_name: self.file_name.clone(),
            mime_type: self.mime_type.clone(),
            is_user_file: self.is_user_file,
            fd: self.fd,
        }
    }
}

/// The views of a list of strings.
pub open spec fn strings_view(v: Seq<String>) -> Seq<Seq<char>> {
    Seq::new(v.len(), |i: int| v[i]@)
}

/// The views of a list of form items.
pub open spec fn form_items_view(v: Seq<FormItem>) -> Seq<FormItemView> {
    Seq::new(v.len(), |i: int| v[i]@)
}

/// The views of a list of files.
pub open spec fn file_specs_view(v: Seq<FileSpec>) -> Seq<FileSpecView> {
    Seq::new(v.len(), |i: int| v[i]@)
}

/// A copy of a list of strings.
pub fn duplicate_strings(v: &Vec<String>) -> (r: Vec<String>)
    ensures
        strings_view(r@) == strings_view(v@),
{
    let mut r: Vec<String> = Vec::new();
    let mut i: usize = 0;
    while i < v.len()
        invariant
            i <= v@.len(),
            r@.len() == i,
            forall|j: int| 0 <= j < i ==> (#[trigger] r@[j])@ == v@[j]@,
        decreases v@.len() - i,
    {
        r.push(v[i].clone());
        i = i + 1;
    }
    proof {
        assert(strings_view(r@) =~= strings_view(v@));
    }
    r
}

/// A copy of a list of form items.
pub fn duplicate_form_items(v: &Vec<FormItem>) -> (r: Vec<FormItem>)
    ensures
        form_items_view(r@) == form_items_view(v@),
{
    let mut r: Vec<FormItem> = Vec::new();
    let mut i: usize = 0;
    while i < v.len()
        invariant
            i <= v@.len(),
            r@.len() == i,
            forall|j: int| 0 <= j < i ==> (#[trigger] r@[j])@ == v@[j]@,
        decreases v@.len() - i,
    {
        r.push(v[i].duplicate());
        i = i + 1;
    }
    proof {
        assert(form_items_view(r@) =~= form_items_view(v@));
    }
    r
}

/// A copy of a list of files.
pub fn duplicate_file_specs(v: &Vec<FileSpec>) -> (r: Vec<FileSpec>)
    ensures
        file_specs_view(r@) == file_specs_view(v@),
{
    let mut r: Vec<FileSpec> = Vec::new();
    let mut i: usize = 0;
    while i < v.len()
        invariant
            i <= v@.len(),
            r@.len() == i,
            forall|j: int| 0 <= j < i ==> (#[trigger] r@[j])@ == v@[j]@,
        decreases v@.len() - i,
    {
        r.push(v[i].duplicate());
        i = i + 1;
    }
    proof {
        assert(file_specs_view(r@) =~= file_specs_view(v@));
    }
    r
}

/// The configuration of a task.
pub struct TaskConfig {
    pub bundle: String,
    pub bundle_type: u32,
    pub atomic_account: String,
    pub url: String,
    pub title: String,
    pub description: String,
    pub method: String,
    pub headers: StringMap,
    pub data: String,
    pub token: String,
    pub proxy: String,
    pub certificate_pins: String,
    pub extras: StringMap,
    pub version: Version,
    pub form_items: Vec<FormItem>,
    pub file_specs: Vec<FileSpec>,
    pub body_file_paths: Vec<String>,
    pub certs_path: Vec<String>,
    pub common_data: CommonTaskConfig,
}

/// A configuration as plain mathematical values.
pub struct TaskConfigView {
    pub bundle: Seq<char>,
    pub bundle_type: u32,
    pub atomic_account: Seq<char>,
    pub url: Seq<char>,
    pub title: Seq<char>,
    pub description: Seq<char>,
    pub method: Seq<char>,
    pub headers: Seq<(Seq<char>, Seq<char>)>,
    pub data: Seq<char>,
    pub token: Seq<char>,
    pub proxy: Seq<char>,
    pub certificate_pins: Seq<char>,
    pub extras: Seq<(Seq<char>, Seq<char>)>,
    pub version: Version,
    pub form_items: Seq<FormItemView>,
    pub file_specs: Seq<FileSpecView>,
    pub body_file_paths: Seq<Seq<char>>,
    pub certs_path: Seq<Seq<char>>,
    pub common_data: CommonTaskConfig,
}

impl View for TaskConfig {
    type V = TaskConfigView;

    open spec fn view(&self) -> TaskConfigView {
        TaskConfigView {
            bundle: self.bundle@,
            bundle_type: self.bundle_type,
            atomic_account: self.atomic_account@,
            url: self.url@,
            title: self.title@,
            description: self.description@,
            method: self.method@,
            headers: self.headers@,
            data: self.data@,
            token: self.token@,
            proxy: self.proxy@,
            certificate_pins: self.certificate_pins@,
            extras: self.extras@,
            version: self.version,
            form_items: form_items_view(self.form_items@),
            file_specs: file_specs_view(self.file_specs@),
            body_file_paths: strings_view(self.body_file_paths@),
            certs_path: strings_view(self.certs_path@),
            common_data: self.common_data,
        }
    }
}

/// The configuration that a builder starts from.
pub open spec fn default_config() -> TaskConfigView {
    TaskConfigView {
        bundle: "xxx"@,
        bundle_type: 0,
        atomic_account: "ohosAnonymousUid"@,
        url: ""@,
        title: "xxx"@,
        description: "xxx"@,
        method: "GET"@,
        headers: Seq::empty(),
        data: ""@,
        token: "xxx"@,
        proxy: ""@,
        certificate_pins: ""@,
        extras: Seq::empty(),
        version: Version::API10,
        form_items: Seq::empty(),
        file_specs: Seq::empty(),
        body_file_paths: Seq::empty(),
        certs_path: Seq::empty(),
        common_data: CommonTaskConfig {
            task_id: 0,
            uid: 0,
            token_id: 0,
            action: Action::Download,
            mode: Mode::BackGround,
            cover: false,
            network_config: NetworkConfig::Any,
            metered: false,
            roaming: false,
            retry: false,
            redirect: true,
            index: 0,
            begins: 0,
            ends: -1i64,
            gauge: false,
            precise: false,
            priority: 0,
            background: false,
            multipart: false,
            min_speed: MinSpeed { speed: 0, duration: 0 },
            timeout: Timeout { connection_timeout: 0, total_timeout: 0 },
        },
    }
}

impl Mode {
    /// The rank of a mode: foreground first, background last.
    pub open spec fn spec_to_usize(self) -> usize {
        match self {
            Mode::FrontEnd => 0,
            Mode::Any => 1,
            Mode::BackGround => 2,
        }
    }

    pub open spec fn spec_from_u8(value: u8) -> Mode {
        match value {
            0 => Mode::BackGround,
            1 => Mode::FrontEnd,
            _ => Mode::Any,
        }
    }

    pub open spec fn spec_repr(self) -> u8 {
        match self {
            Mode::BackGround => 0,
            Mode::FrontEnd => 1,
            Mode::Any => 2,
        }
    }

    /// The rank of a mode: foreground first, background last.
    pub fn to_usize(self) -> (n: usize)
        ensures
            n == self.spec_to_usize(),
    {
        match self {
            Mode::FrontEnd => 0,
            Mode::Any => 1,
            Mode::BackGround => 2,
        }
    }

    pub fn from_u8(value: u8) -> (m: Mode)
        ensures
            m == Mode::spec_from_u8(value),
    {
        match value {
            0 => Mode::BackGround,
            1 => Mode::FrontEnd,
            _ => Mode::Any,
        }
    }

    pub fn repr(self) -> (n: u8)
        ensures
            n == self.spec_repr(),
    {
        match self {
            Mode::BackGround => 0,
            Mode::FrontEnd => 1,
            Mode::Any => 2,
        }
    }
}

impl Action {
    pub open spec fn spec_from_u8(value: u8) -> Action {
        match value {
            0 => Action::Download,
            1 => Action::Upload,
            _ => Action::Any,
        }
    }

    pub open spec fn spec_repr(self) -> u8 {
        match self {
            Action::Download => 0,
            Action::Upload => 1,
            Action::Any => 2,
        }
    }

    pub fn from_u8(value: u8) -> (a: Action)
        ensures
            a == Action::spec_from_u8(value),
    {
        match value {
            0 => Action::Download,
            1 => Action::Upload,
            _ => Action::Any,
        }
    }

    pub fn repr(self) -> (n: u8)
        ensures
            n == self.spec_repr(),
    {
        match self {
            Action::Download => 0,
            Action::Upload => 1,
            Action::Any => 2,
        }
    }
}

impl Version {
    pub open spec fn spec_from_u8(value: u8) -> Version {
        match value {
            2 => Version::API10,
            _ => Version::API9,
        }
    }

    pub open spec fn spec_repr(self) -> u8 {
        match self {
            Version::API9 => 1,
            Version::API10 => 2,
        }
    }

    pub fn from_u8(value: u8) -> (v: Version)
        ensures
            v == Version::spec_from_u8(value),
    {
        match value {
            2 => Version::API10,
            _ => Version::API9,
        }
    }

    pub fn repr(self) -> (n: u8)
        ensures
            n == self.spec_repr(),
    {
        match self {
            Version::API9 => 1,
            Version::API10 => 2,
        }
    }
}

impl NetworkConfig {
    pub open spec fn spec_from_u8(value: u8) -> NetworkConfig {
        match value {
            0 => NetworkConfig::Any,
            2 => NetworkConfig::Cellular,
            _ => NetworkConfig::Wifi,
        }
    }

    pub open spec fn spec_repr(self) -> u8 {
        match self {
            NetworkConfig::Any => 0,
            NetworkConfig::Wifi => 1,
            NetworkConfig::Cellular => 2,
        }
    }

    pub fn from_u8(value: u8) -> (n: NetworkConfig)
        ensures
            n == NetworkConfig::spec_from_u8(value),
    {
        match value {
            0 => NetworkConfig::Any,
            2 => NetworkConfig::Cellular,
            _ => NetworkConfig::Wifi,
        }
    }

    pub fn repr(self) -> (n: u8)
        ensures
            n == self.spec_repr(),
    {
        match self {
            NetworkConfig::Any => 0,
            NetworkConfig::Wifi => 1,
            NetworkConfig::Cellular => 2,
        }
    }
}

/// Each of the four enumerations survives being written as its number and
/// read back.
pub proof fn lemma_enum_round_trip(a: Action, m: Mode, v: Version, n: NetworkConfig)
    ensures
        Action::spec_from_u8(a.spec_repr()) == a,
        Mode::spec_from_u8(m.spec_repr()) == m,
        Version::spec_from_u8(v.spec_repr()) == v,
        NetworkConfig::spec_from_u8(n.spec_repr()) == n,
{
}

/// Whether a task with the constraint `config`, and with metered and
/// roaming networks allowed or not, may run on `network`; if not, why.
/// A task that asks for a cellular network also runs on Wi-Fi.
pub open spec fn spec_satisfy_network(
    config: NetworkConfig,
    metered: bool,
    roaming: bool,
    network: NetworkState,
) -> Result<(), Reason> {
    match network {
        NetworkState::Offline => Err(Reason::NetworkOffline),
        NetworkState::Online(info) => {
            if config == NetworkConfig::Any {
                Ok(())
            } else if config == NetworkConfig::Wifi && info.network_type
                == NetworkType::Cellular {
                Err(Reason::UnsupportedNetworkType)
            } else if (roaming || !info.is_roaming) && (metered || !info.is_metered) {
                Ok(())
            } else {
                Err(Reason::UnsupportedNetworkType)
            }
        },
    }
}

impl TaskConfig {
    /// Whether the task may run on `network`; if not, why.
    pub fn satisfy_network(&self, network: &NetworkState) -> (r: Result<(), Reason>)
        ensures
            r == spec_satisfy_network(
                self.common_data.network_config,
                self.common_data.metered,
                self.common_data.roaming,
                *network,
            ),
    {
        match network {
            NetworkState::Offline => Err(Reason::NetworkOffline),
            NetworkState::Online(info) => {
                if self.common_data.network_config == NetworkConfig::Any {
                    Ok(())
                } else if self.common_data.network_config == NetworkConfig::Wifi
                    && info.network_type == NetworkType::Cellular {
                    Err(Reason::UnsupportedNetworkType)
                } else if (self.common_data.roaming || !info.is_roaming) && (
                self.common_data.metered || !info.is_metered) {
                    Ok(())
                } else {
                    Err(Reason::UnsupportedNetworkType)
                }
            },
        }
    }

    /// Whether the task may run given the applications in the foreground: a
    /// background task always, any other only if its owner is among them.
    pub fn satisfy_foreground(&self, foreground_abilities: &HashSet<u64>) -> (b: bool)
        ensures
            b == (self.common_data.mode == Mode::BackGround || foreground_abilities@.contains(
                self.common_data.uid,
            )),
    {
        broadcast use vstd::std_specs::hash::group_hash_axioms;

        self.common_data.mode == Mode::BackGround || foreground_abilities.contains(
            &self.common_data.uid,
        )
    }

    /// Whether one of the files was handed over as an open descriptor.
    pub fn contains_user_file(&self) -> (b: bool)
        ensures
            b == exists|i: int|
                0 <= i < self.file_specs@.len() && (#[trigger] self.file_specs@[i]).is_user_file,
    {
        let mut i: usize = 0;
        while i < self.file_specs.len()
            invariant
                i <= self.file_specs@.len(),
                forall|j: int| 0 <= j < i ==> !(#[trigger] self.file_specs@[j]).is_user_file,
            decreases self.file_specs@.len() - i,
        {
            if self.file_specs[i].is_user_file {
                return true;
            }
            i = i + 1;
        }
        false
    }

    /// A copy of the configuration.
    pub fn duplicate(&self) -> (r: TaskConfig)
        ensures
            r@ == self@,
    {
        TaskConfig {
            bundle: self.bundle.clone(),
            bundle_type: self.bundle_type,
            atomic_account: self.atomic_account.clone(),
            url: self.url.clone(),
            title: self.title.clone(),
            description: self.description.clone(),
            method: self.method.clone(),
            headers: self.headers.duplicate(),
            data: self.data.clone(),
            token: self.token.clone(),
            proxy: self.proxy.clone(),
            certificate_pins: self.certificate_pins.clone(),
            extras: self.extras.duplicate(),
            version: self.version,
            form_items: duplicate_form_items(&self.form_items),
            file_specs: duplicate_file_specs(&self.file_specs),
            body_file_paths: duplicate_strings(&self.body_file_paths),
            certs_path: duplicate_strings(&self.certs_path),
            common_data: self.common_data,
        }
    }
}

impl Default for TaskConfig {
    fn default() -> (r: TaskConfig)
        ensures
            r@ == default_config(),
    {
        let r = TaskConfig {
            bundle_type: 0,
            atomic_account: "ohosAnonymousUid".to_owned(),
            bundle: "xxx".to_owned(),
            url: "".to_owned(),
            title: "xxx".to_owned(),
            description: "xxx".to_owned(),
            method: "GET".to_owned(),
            headers: StringMap::new(),
            data: "".to_owned(),
            token: "xxx".to_owned(),
            proxy: "".to_owned(),
            extras: StringMap::new(),
            version: Version::API10,
            form_items: Vec::new(),
            file_specs: Vec::new(),
            body_file_paths: Vec::new(),
            certs_path: Vec::new(),
            certificate_pins: "".to_owned(),
            common_data: CommonTaskConfig {
                task_id: 0,
                uid: 0,
                token_id: 0,
                action: Action::Download,
                mode: Mode::BackGround,
                cover: false,
                network_config: NetworkConfig::Any,
                metered: false,
                roaming: false,
                retry: false,
                redirect: true,
                index: 0,
                begins: 0,
                ends: -1,
                gauge: false,
                precise: false,
                priority: 0,
                background: false,
                multipart: false,
                min_speed: MinSpeed::default(),
                timeout: Timeout::default(),
            },
        };
        proof {
            assert(r@.form_items =~= Seq::empty());
            assert(r@.file_specs =~= Seq::empty());
            assert(r@.body_file_paths =~= Seq::empty());
            assert(r@.certs_path =~= Seq::empty());
        }
        r
    }
}

/// Builds a configuration step by step.
pub struct ConfigBuilder {
    inner: TaskConfig,
}

impl View for ConfigBuilder {
    type V = TaskConfigView;

    closed spec fn view(&self) -> TaskConfigView {
        self.inner@
    }
}

impl ConfigBuilder {
    /// A builder that holds the default configuration.
    pub fn new() -> (b: ConfigBuilder)
        ensures
            b@ == default_config(),
    {
        ConfigBuilder { inner: TaskConfig::default() }
    }

    /// Sets the url.
    pub fn url(&mut self, url: &str) -> (r: &mut ConfigBuilder)
        ensures
            r@ == (TaskConfigView { url: url@, ..old(self)@ }),
            *final(self) == *final(r),
    {
        self.inner.url = url.to_owned();
        self
    }

    /// Sets the version from its number; a number that stands for none
    /// selects the legacy behaviour.
    pub fn version(&mut self, version: u8) -> (r: &mut ConfigBuilder)
        ensures
            r@ == (TaskConfigView { version: Version::spec_from_u8(version), ..old(self)@ }),
            *final(self) == *final(r),
    {
        self.inner.version = Version::from_u8(version);
        self
    }

    /// Adds a file that the caller opened itself, by its descriptor.
    pub fn file_spec(&mut self, fd: i32) -> (r: &mut ConfigBuilder)
        ensures
            r@ == (TaskConfigView {
                file_specs: old(self)@.file_specs.push(
                    FileSpecView {
                        name: "file"@,
                        path: ""@,
                        file_name: ""@,
                        mime_type: ""@,
                        is_user_file: true,
                        fd: Some(fd),
                    },
                ),
                ..old(self)@
            }),
            *final(self) == *final(r),
    {
        let ghost before = self.inner.file_specs@;
        self.inner.file_specs.push(FileSpec::user_file(fd));
        proof {
            assert(file_specs_view(self.inner.file_specs@) =~= file_specs_view(before).push(
                self.inner.file_specs@[before.len() as int]@,
            ));
        }
        self
    }

    /// Sets the action.
    pub fn action(&mut self, action: Action) -> (r: &mut ConfigBuilder)
        ensures
            r@ == (TaskConfigView {
                common_data: CommonTaskConfig { action: action, ..old(self)@.common_data },
                ..old(self)@
            }),
            *final(self) == *final(r),
    {
        self.inner.common_data.action = action;
        self
    }

    /// Sets the mode.
    pub fn mode(&mut self, mode: Mode) -> (r: &mut ConfigBuilder)
        ensures
            r@ == (TaskConfigView {
                common_data: CommonTaskConfig { mode: mode, ..old(self)@.common_data },
                ..old(self)@
            }),
            *final(self) == *final(r),
    {
        self.inner.common_data.mode = mode;
        self
    }

    /// Sets the name of the owning application.
    pub fn bundle_name(&mut self, bundle_name: &str) -> (r: &mut ConfigBuilder)
        ensures
            r@ == (TaskConfigView { bundle: bundle_name@, ..old(self)@ }),
            *final(self) == *final(r),
    {
        self.inner.bundle = bundle_name.to_owned();
        self
    }

    /// Sets the owning user id.
    pub fn uid(&mut self, uid: u64) -> (r: &mut ConfigBuilder)
        ensures
            r@ == (TaskConfigView {
                common_data: CommonTaskConfig { uid: uid, ..old(self)@.common_data },
                ..old(self)@
            }),
            *final(self) == *final(r),
    {
        self.inner.common_data.uid = uid;
        self
    }

    /// Sets the kind of network that the task accepts.
    pub fn network(&mut self, network: NetworkConfig) -> (r: &mut ConfigBuilder)
        ensures
            r@ == (TaskConfigView {
                common_data: CommonTaskConfig {
                    network_config: network,
                    ..old(self)@.common_data
                },
                ..old(self)@
            }),
            *final(self) == *final(r),
    {
        self.inner.common_data.network_config = network;
        self
    }

    /// Allows or forbids roaming networks.
    pub fn roaming(&mut self, roaming: bool) -> (r: &mut ConfigBuilder)
        ensures
            r@ == (TaskConfigView {
                common_data: CommonTaskConfig { roaming: roaming, ..old(self)@.common_data },
                ..old(self)@
            }),
            *final(self) == *final(r),
    {
        self.inner.common_data.roaming = roaming;
        self
    }

    /// Allows or forbids metered networks.
    pub fn metered(&mut self, metered: bool) -> (r: &mut ConfigBuilder)
        ensures
            r@ == (TaskConfigView {
                common_data: CommonTaskConfig { metered: metered, ..old(self)@.common_data },
                ..old(self)@
            }),
            *final(self) == *final(r),
    {
        self.inner.common_data.metered = metered;
        self
    }

    /// The configuration built so far.
    pub fn build(&mut self) -> (c: TaskConfig)
        ensures
            c@ == old(self)@,
            final(self)@ == old(self)@,
    {
        self.inner.duplicate()
    }

    /// Allows or forbids following redirections.
    pub fn redirect(&mut self, redirect: bool) -> (r: &mut ConfigBuilder)
        ensures
            r@ == (TaskConfigView {
                common_data: CommonTaskConfig { redirect: redirect, ..old(self)@.common_data },
                ..old(self)@
            }),
            *final(self) == *final(r),
    {
        self.inner.common_data.redirect = redirect;
        self
    }

    /// Sets the first byte of the range.
    pub fn begins(&mut self, begins: u64) -> (r: &mut ConfigBuilder)
        ensures
            r@ == (TaskConfigView {
                common_data: CommonTaskConfig { begins: begins, ..old(self)@.common_data },
                ..old(self)@
            }),
            *final(self) == *final(r),
    {
        self.inner.common_data.begins = begins;
        self
    }

    /// Sets the last byte of the range. A value above the largest signed
    /// number wraps to a negative one, which stands for "to the end".
    pub fn ends(&mut self, ends: u64) -> (r: &mut ConfigBuilder)
        ensures
            r@ == (TaskConfigView {
                common_data: CommonTaskConfig {
                    ends: wrap_to_i64(ends),
                    ..old(self)@.common_data
                },
                ..old(self)@
            }),
            *final(self) == *final(r),
    {
        self.inner.common_data.ends = u64_to_i64_wrapping(ends);
        self
    }

    /// Sets the HTTP method.
    pub fn method(&mut self, method: &str) -> (r: &mut ConfigBuilder)
        ensures
            r@ == (TaskConfigView { method: method@, ..old(self)@ }),
            *final(self) == *final(r),
    {
        self.inner.method = method.to_owned();
        self
    }

    /// Lets the task wait for the network, or not.
    pub fn retry(&mut self, retry: bool) -> (r: &mut ConfigBuilder)
        ensures
            r@ == (TaskConfigView {
                common_data: CommonTaskConfig { retry: retry, ..old(self)@.common_data },
                ..old(self)@
            }),
            *final(self) == *final(r),
    {
        self.inner.common_data.retry = retry;
        self
    }
}

/// The signed number with the same 64 bits as `value`.
pub open spec fn wrap_to_i64(value: u64) -> i64 {
    if value <= i64::MAX as u64 {
        value as i64
    } else {
        (value - 0x1_0000_0000_0000_0000) as i64
    }
}

/// The unsigned number with the same 64 bits as `value`.
pub open spec fn wrap_to_u64(value: i64) -> u64 {
    if value >= 0 {
        value as u64
    } else {
        (value + 0x1_0000_0000_0000_0000) as u64
    }
}

/// The signed number with the same 64 bits as `value`.
pub fn u64_to_i64_wrapping(value: u64) -> (r: i64)
    ensures
        r == wrap_to_i64(value),
{
    if value <= 0x7fff_ffff_ffff_ffffu64 {
        value as i64
    } else {
        let low: u64 = value - 0x8000_0000_0000_0000u64;
        (low as i64) + i64::MIN
    }
}

/// The unsigned number with the same 64 bits as `value`.
pub fn i64_to_u64_wrapping(value: i64) -> (r: u64)
    ensures
        r == wrap_to_u64(value),
{
    if value >= 0 {
        value as u64
    } else {
        let up: i64 = value - i64::MIN;
        (up as u64) + 0x8000_0000_0000_0000u64
    }
}

/// The two conversions undo each other.
pub proof fn lemma_wrap_round_trip(a: u64, b: i64)
    ensures
        wrap_to_u64(wrap_to_i64(a)) == a,
        wrap_to_i64(wrap_to_u64(b)) == b,
{
}

} // verus!
