//! The configuration of a backup run and the rules it must meet before a run starts.
use vstd::prelude::*;

use crate::archives::{archive_name, lemma_archive_names_plain, part_name};
use crate::pathname::{
    child_path, component_count, has_root, is_absolute, is_plain_name, lemma_child_components,
    path_components,
    path_starts_with, starts_with,
};
use crate::text::{chars_of, push_signed_decimal, signed_decimal, string_views};

verus! {

/// The configuration file's contents.
pub struct Config {
    /// File-system UUID of the backup disk.
    pub uuid: String,
    /// Where the backup disk is mounted.
    pub mountpoint: String,
    /// Directory on the backup disk that receives the archives.
    pub destination: String,
    /// The age X25519 public key the archives are encrypted to.
    pub age_pubkey: String,
    /// How many archives to keep.
    pub keep: usize,
    /// The files and directories to archive.
    pub sources: Vec<String>,
    /// After how many days without a backup the reminder reports it overdue.
    pub threshold_days: u64,
    /// Path components that are left out wherever they occur below a source.
    pub exclude: Vec<String>,
    /// The zstd compression level.
    pub compression_level: i32,
}

/// A configuration as a mathematical value.
pub struct ConfigView {
    pub uuid: Seq<char>,
    pub mountpoint: Seq<char>,
    pub destination: Seq<char>,
    pub age_pubkey: Seq<char>,
    pub keep: usize,
    pub sources: Seq<Seq<char>>,
    pub threshold_days: u64,
    pub exclude: Seq<Seq<char>>,
    pub compression_level: i32,
}

impl View for Config {
    type V = ConfigView;

    open spec fn view(&self) -> ConfigView {
        ConfigView {
            uuid: self.uuid@,
            mountpoint: self.mountpoint@,
            destination: self.destination@,
            age_pubkey: self.age_pubkey@,
            keep: self.keep,
            sources: string_views(self.sources@),
            threshold_days: self.threshold_days,
            exclude: string_views(self.exclude@),
            compression_level: self.compression_level,
        }
    }
}

/// Why a configuration is refused.
#[derive(Debug, Clone, PartialEq, Eq)]
pub enum ConfigError {
    EmptySources,
    RelativeSource(String),
    ZeroKeep,
    RelativeMountpoint,
    RelativeDestination,
    DestinationOutsideMountpoint { destination: String, mountpoint: String },
    ZeroThresholdDays,
    CompressionLevelOutOfRange(i32),
    ExcludeNotSingleComponent(String),
    InvalidAgeKey(String),
}

/// Why a configuration is refused, as a mathematical value.
pub enum ConfigErrorView {
    EmptySources,
    RelativeSource(Seq<char>),
    ZeroKeep,
    RelativeMountpoint,
    RelativeDestination,
    DestinationOutsideMountpoint { destination: Seq<char>, mountpoint: Seq<char> },
    ZeroThresholdDays,
    CompressionLevelOutOfRange(i32),
    ExcludeNotSingleComponent(Seq<char>),
    InvalidAgeKey(Seq<char>),
}

impl View for ConfigError {
    type V = ConfigErrorView;

    open spec fn view(&self) -> ConfigErrorView {
        match self {
            ConfigError::EmptySources => ConfigErrorView::EmptySources,
            ConfigError::RelativeSource(s) => ConfigErrorView::RelativeSource(s@),
            ConfigError::ZeroKeep => ConfigErrorView::ZeroKeep,
            ConfigError::RelativeMountpoint => ConfigErrorView::RelativeMountpoint,
            ConfigError::RelativeDestination => ConfigErrorView::RelativeDestination,
            ConfigError::DestinationOutsideMountpoint { destination, mountpoint } =>
                ConfigErrorView::DestinationOutsideMountpoint {
                destination: destination@,
                mountpoint: mountpoint@,
            },
            ConfigError::ZeroThresholdDays => ConfigErrorView::ZeroThresholdDays,
            ConfigError::CompressionLevelOutOfRange(l) =>
                ConfigErrorView::CompressionLevelOutOfRange(*l),
            ConfigError::ExcludeNotSingleComponent(e) =>
                ConfigErrorView::ExcludeNotSingleComponent(e@),
            ConfigError::InvalidAgeKey(m) => ConfigErrorView::InvalidAgeKey(m@),
        }
    }
}

/// The view of an optional string.
pub open spec fn opt_view(o: Option<String>) -> Option<Seq<char>> {
    match o {
        Some(s) => Some(s@),
        None => None,
    }
}

/// The first path in `ps` that is not absolute, if any.
pub open spec fn first_relative(ps: Seq<Seq<char>>) -> Option<Seq<char>>
    decreases ps.len(),
{
    if ps.len() == 0 {
        None
    } else if !has_root(ps[0]) {
        Some(ps[0])
    } else {
        first_relative(ps.drop_first())
    }
}

/// The first path in `ps` that is not exactly one component, if any.
pub open spec fn first_multi_component(ps: Seq<Seq<char>>) -> Option<Seq<char>>
    decreases ps.len(),
{
    if ps.len() == 0 {
        None
    } else if path_components(ps[0]).len() != 1 {
        Some(ps[0])
    } else {
        first_multi_component(ps.drop_first())
    }
}

/// Whether `level` is a compression level the configuration accepts.
pub open spec fn level_in_range(level: i32) -> bool {
    1 <= level <= 22
}

/// What checking the configuration `c` gives, where `key_error` is what parsing its age
/// public key gave (`None` when it parsed). The checks come in a fixed order and the first
/// that fails decides the error.
pub open spec fn config_check(c: ConfigView, key_error: Option<Seq<char>>) -> Result<(), ConfigErrorView> {
    if c.sources.len() == 0 {
        Err(ConfigErrorView::EmptySources)
    } else if first_relative(c.sources) is Some {
        Err(ConfigErrorView::RelativeSource(first_relative(c.sources)->0))
    } else if c.keep == 0 {
        Err(ConfigErrorView::ZeroKeep)
    } else if !has_root(c.mountpoint) {
        Err(ConfigErrorView::RelativeMountpoint)
    } else if !has_root(c.destination) {
        Err(ConfigErrorView::RelativeDestination)
    } else if !path_starts_with(c.destination, c.mountpoint) {
        Err(
            ConfigErrorView::DestinationOutsideMountpoint {
                destination: c.destination,
                mountpoint: c.mountpoint,
            },
        )
    } else if c.threshold_days == 0 {
        Err(ConfigErrorView::ZeroThresholdDays)
    } else if !level_in_range(c.compression_level) {
        Err(ConfigErrorView::CompressionLevelOutOfRange(c.compression_level))
    } else if first_multi_component(c.exclude) is Some {
        Err(ConfigErrorView::ExcludeNotSingleComponent(first_multi_component(c.exclude)->0))
    } else if key_error is Some {
        Err(ConfigErrorView::InvalidAgeKey(key_error->0))
    } else {
        Ok(())
    }
}

/// Whether a configuration meets every rule, its age public key included.
pub open spec fn config_valid(c: ConfigView) -> bool {
    config_check(c, age_recipient_parse_error(c.age_pubkey)) is Ok
}

/// A path that starts with the directory `dir` still does once a plain name is pushed onto
/// `dir`.
proof fn lemma_child_stays_below(dir: Seq<char>, name: Seq<char>, base: Seq<char>)
    requires
        has_root(dir),
        is_plain_name(name),
        path_starts_with(dir, base),
    ensures
        path_starts_with(child_path(dir, name), base),
{
    lemma_child_components(dir, name);
    let b = path_components(base);
    let d = path_components(dir);
    let c = path_components(child_path(dir, name));
    assert(c.take(b.len() as int) =~= d.take(b.len() as int));
}

/// Archives of a valid configuration land on the backup disk: the path of the archive made
/// at any time, and that of its partial file, start with the mountpoint.
pub proof fn lemma_archives_under_mountpoint(c: ConfigView, ts: u64)
    requires
        config_valid(c),
    ensures
        path_starts_with(child_path(c.destination, archive_name(ts)), c.mountpoint),
        path_starts_with(child_path(c.destination, part_name(ts)), c.mountpoint),
{
    lemma_archive_names_plain(ts);
    lemma_child_stays_below(c.destination, archive_name(ts), c.mountpoint);
    lemma_child_stays_below(c.destination, part_name(ts), c.mountpoint);
}

/// Name for what `<age::x25519::Recipient as FromStr>::from_str` decides on `key`: `None` when
/// `key` is a Bech32 string with the human-readable part `age` and a 32-byte payload, otherwise
/// the message of the error it returns.
pub uninterp spec fn age_recipient_parse_error(key: Seq<char>) -> Option<Seq<char>>;

#[verifier::external_type_specification]
#[verifier::external_body]
pub struct ExRecipient(age::x25519::Recipient);

/// Parses `key` with `<age::x25519::Recipient as FromStr>::from_str` and pairs the recipient
/// it gives with the text it was parsed from. Trusted: the result is `Ok` exactly when the
/// named decision is `None`, and then holds `key` with the recipient parsed from it; an error
/// carries the crate's message, which its source shows is one of three fixed texts. Which
/// recipient the parse gives is the crate's business and is not stated beyond that pairing.
#[verifier::external_body]
fn recipient_from_str(key: &str) -> (r: Result<EncryptionKey, String>)
    ensures
        r is Ok <==> age_recipient_parse_error(key@) is None,
        r matches Ok(k) ==> k@ == key@,
        r matches Err(m) ==> age_recipient_parse_error(key@) == Some(m@),
        r matches Err(m) ==> (m@ == "invalid Bech32 encoding"@ || m@ == "incorrect pubkey length"@
            || m@ == "incorrect HRP"@),
{
    match key.parse::<age::x25519::Recipient>() {
        Ok(recipient) => Ok(EncryptionKey { text: key.to_string(), recipient }),
        Err(e) => Err(e.to_string()),
    }
}

/// An age X25519 public key together with the recipient parsed from it: the key archives are
/// encrypted to. Only the parse in `recipient_from_str` makes one, so its recipient is always
/// the one its text parses to.
pub struct EncryptionKey {
    text: String,
    recipient: age::x25519::Recipient,
}

impl View for EncryptionKey {
    type V = Seq<char>;

    closed spec fn view(&self) -> Seq<char> {
        self.text@
    }
}

impl EncryptionKey {
    /// The key's text.
    pub fn text(&self) -> (t: &String)
        ensures
            t@ == self@,
    {
        &self.text
    }

    /// The recipient parsed from the key's text.
    pub fn recipient(&self) -> &age::x25519::Recipient {
        &self.recipient
    }
}

/// Parses an age X25519 public key into the key that archives are encrypted to.
pub fn parse_recipient(key: &str) -> (r: Result<EncryptionKey, String>)
    ensures
        r is Ok <==> age_recipient_parse_error(key@) is None,
        r matches Ok(k) ==> k@ == key@,
        r matches Err(m) ==> age_recipient_parse_error(key@) == Some(m@),
{
    recipient_from_str(key)
}

/// The compression level used when the configuration names none.
pub fn default_compression_level() -> (l: i32)
    ensures
        l == 3,
{
    3
}

fn find_relative(ps: &Vec<String>) -> (r: Option<String>)
    ensures
        r matches Some(s) ==> first_relative(string_views(ps@)) == Some(s@),
        r is None ==> first_relative(string_views(ps@)) is None,
{
    let n = ps.len();
    let ghost all = string_views(ps@);
    assert(all.skip(0) =~= all);
    for i in 0..n
        invariant
            n == ps.len(),
            all == string_views(ps@),
            first_relative(all) == first_relative(all.skip(i as int)),
    {
        let v = chars_of(ps[i].as_str());
        assert(all.skip(i as int).drop_first() =~= all.skip(i + 1));
        assert(all.skip(i as int)[0] == ps@[i as int]@);
        if !is_absolute(&v) {
            return Some(ps[i].clone());
        }
    }
    assert(all.skip(n as int) =~= Seq::<Seq<char>>::empty());
    None
}

fn find_multi_component(ps: &Vec<String>) -> (r: Option<String>)
    ensures
        r matches Some(s) ==> first_multi_component(string_views(ps@)) == Some(s@),
        r is None ==> first_multi_component(string_views(ps@)) is None,
{
    let n = ps.len();
    let ghost all = string_views(ps@);
    assert(all.skip(0) =~= all);
    for i in 0..n
        invariant
            n == ps.len(),
            all == string_views(ps@),
            first_multi_component(all) == first_multi_component(all.skip(i as int)),
    {
        let v = chars_of(ps[i].as_str());
        assert(all.skip(i as int).drop_first() =~= all.skip(i + 1));
        assert(all.skip(i as int)[0] == ps@[i as int]@);
        if component_count(&v) != 1 {
            return Some(ps[i].clone());
        }
    }
    assert(all.skip(n as int) =~= Seq::<Seq<char>>::empty());
    None
}

impl Config {
    /// Checks the configuration, given what parsing its age public key gave (`None` when it
    /// parsed, else the parser's message).
    pub fn check(&self, key_error: Option<String>) -> (r: Result<(), ConfigError>)
        ensures
            match r {
                Ok(()) => config_check(self@, opt_view(key_error)) is Ok,
                Err(e) => config_check(self@, opt_view(key_error)) == Err::<(), ConfigErrorView>(e@),
            },
    {
        if self.sources.len() == 0 {
            return Err(ConfigError::EmptySources);
        }
        match find_relative(&self.sources) {
            Some(s) => {
                return Err(ConfigError::RelativeSource(s));
            },
            None => {},
        }
        if self.keep == 0 {
            return Err(ConfigError::ZeroKeep);
        }
        let mount = chars_of(self.mountpoint.as_str());
        if !is_absolute(&mount) {
            return Err(ConfigError::RelativeMountpoint);
        }
        let dest = chars_of(self.destination.as_str());
        if !is_absolute(&dest) {
            return Err(ConfigError::RelativeDestination);
        }
        if !starts_with(&dest, &mount) {
            return Err(
                ConfigError::DestinationOutsideMountpoint {
                    destination: self.destination.clone(),
                    mountpoint: self.mountpoint.clone(),
                },
            );
        }
        if self.threshold_days == 0 {
            return Err(ConfigError::ZeroThresholdDays);
        }
        if !(1 <= self.compression_level && self.compression_level <= 22) {
            return Err(ConfigError::CompressionLevelOutOfRange(self.compression_level));
        }
        match find_multi_component(&self.exclude) {
            Some(e) => {
                return Err(ConfigError::ExcludeNotSingleComponent(e));
            },
            None => {},
        }
        match key_error {
            Some(m) => Err(ConfigError::InvalidAgeKey(m)),
            None => Ok(()),
        }
    }

    /// Checks every rule of the configuration, its age public key last.
    pub fn validate(&self) -> (r: Result<(), ConfigError>)
        ensures
            match r {
                Ok(()) => config_check(self@, age_recipient_parse_error(self@.age_pubkey)) is Ok,
                Err(e) => config_check(self@, age_recipient_parse_error(self@.age_pubkey))
                    == Err::<(), ConfigErrorView>(e@),
            },
    {
        let fields = self.check(None);
        if fields.is_err() {
            return fields;
        }
        let key_error = match recipient_from_str(self.age_pubkey.as_str()) {
            Ok(_) => None,
            Err(m) => Some(m),
        };
        self.check(key_error)
    }
}


/// The message that says why a configuration is refused.
pub open spec fn config_error_message(e: ConfigErrorView) -> Seq<char> {
    match e {
        ConfigErrorView::EmptySources =>
            "sources is empty \u{2014} the backup would archive nothing and rotation would delete existing archives"@,
        ConfigErrorView::RelativeSource(s) => "source "@ + s + " is not an absolute path"@,
        ConfigErrorView::ZeroKeep =>
            "keep = 0 would delete every archive including the one just written"@,
        ConfigErrorView::RelativeMountpoint => "mountpoint must be an absolute path"@,
        ConfigErrorView::RelativeDestination => "destination must be an absolute path"@,
        ConfigErrorView::DestinationOutsideMountpoint { destination, mountpoint } =>
            "destination "@ + destination + " is not under mountpoint "@ + mountpoint
                + " \u{2014} backups would land on the root filesystem"@,
        ConfigErrorView::ZeroThresholdDays =>
            "threshold_days = 0 makes every backup permanently overdue"@,
        ConfigErrorView::CompressionLevelOutOfRange(l) =>
            "compression_level "@ + signed_decimal(l as int) + " is out of range (1-22)"@,
        ConfigErrorView::ExcludeNotSingleComponent(e) =>
            "exclude entry '"@ + e + "' must be a single path component (e.g. '.cache'), not a path"@,
        ConfigErrorView::InvalidAgeKey(m) => "parsing age_pubkey: "@ + m,
    }
}

impl ConfigError {
    /// The message that says why the configuration is refused.
    pub fn message(&self) -> (s: String)
        ensures
            s@ == config_error_message(self@),
    {
        let mut s = String::new();
        let ghost empty = s@;
        match self {
            ConfigError::EmptySources => {
                s.append(
                    "sources is empty \u{2014} the backup would archive nothing and rotation would delete existing archives",
                );
            },
            ConfigError::RelativeSource(p) => {
                s.append("source ");
                s.append(p.as_str());
                s.append(" is not an absolute path");
            },
            ConfigError::ZeroKeep => {
                s.append("keep = 0 would delete every archive including the one just written");
            },
            ConfigError::RelativeMountpoint => {
                s.append("mountpoint must be an absolute path");
            },
            ConfigError::RelativeDestination => {
                s.append("destination must be an absolute path");
            },
            ConfigError::DestinationOutsideMountpoint { destination, mountpoint } => {
                s.append("destination ");
                s.append(destination.as_str());
                s.append(" is not under mountpoint ");
                s.append(mountpoint.as_str());
                s.append(" \u{2014} backups would land on the root filesystem");
            },
            ConfigError::ZeroThresholdDays => {
                s.append("threshold_days = 0 makes every backup permanently overdue");
            },
            ConfigError::CompressionLevelOutOfRange(l) => {
                s.append("compression_level ");
                push_signed_decimal(&mut s, *l);
                s.append(" is out of range (1-22)");
            },
            ConfigError::ExcludeNotSingleComponent(e) => {
                s.append("exclude entry '");
                s.append(e.as_str());
                s.append("' must be a single path component (e.g. '.cache'), not a path");
            },
            ConfigError::InvalidAgeKey(m) => {
                s.append("parsing age_pubkey: ");
                s.append(m.as_str());
            },
        }
        assert(s@ =~= config_error_message(self@));
        s
    }
}

proof fn lemma_first_relative_none(ps: Seq<Seq<char>>)
    ensures
        first_relative(ps) is None <==> forall|i: int| 0 <= i < ps.len() ==> has_root(#[trigger] ps[i]),
    decreases ps.len(),
{
    if ps.len() > 0 {
        lemma_first_relative_none(ps.drop_first());
        if first_relative(ps) is None {
            assert forall|i: int| 0 <= i < ps.len() implies has_root(#[trigger] ps[i]) by {
                if i > 0 {
                    assert(ps[i] == ps.drop_first()[i - 1]);
                }
            }
        }
        if forall|i: int| 0 <= i < ps.len() ==> has_root(#[trigger] ps[i]) {
            assert forall|i: int| 0 <= i < ps.drop_first().len() implies has_root(
                #[trigger] ps.drop_first()[i],
            ) by {
                assert(ps.drop_first()[i] == ps[i + 1]);
            }
            assert(has_root(ps[0]));
        }
    }
}

/// The number of archives to keep is refused only when it is zero: the configuration is
/// refused with `ZeroKeep` exactly when `keep` is zero and its sources (checked before) are
/// present and all absolute, and any two numbers of at least one are judged alike, so
/// `keep = 1` is as valid as any larger number.
pub proof fn lemma_keep_rule(c: ConfigView, key_error: Option<Seq<char>>, n: usize)
    ensures
        (config_check(c, key_error) == Err::<(), ConfigErrorView>(ConfigErrorView::ZeroKeep)) <==> (
        c.keep == 0 && c.sources.len() > 0 && forall|i: int|
            0 <= i < c.sources.len() ==> has_root(#[trigger] c.sources[i])),
        n >= 1 && c.keep >= 1 ==> config_check(ConfigView { keep: n, ..c }, key_error)
            == config_check(c, key_error),
{
    lemma_first_relative_none(c.sources);
}

} // verus!
