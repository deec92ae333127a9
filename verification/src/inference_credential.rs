//! The inference credential: the value the gateway attaches to each driver request, and where it
//! comes from.
//!
//! A `${NAME}` in `inference.api_key` is looked up at staging, first in the global config's
//! `credentials:` map and then in the launching environment. A value from the config stays
//! re-readable for the whole session: every keyed request reads the file and compares what it
//! finds with the value last read. File metadata never decides whether to read. A value from the
//! environment or written literally in the manifest is read once.
//!
//! No text this module makes holds a value, a hash of one, its length or any prefix.

use crate::errors::RuntimeError;
use crate::murmur_home;
use crate::text;
use vstd::prelude::*;

verus! {

/// The diagnostic code a session fails with when the provider keeps rejecting its credential.
pub const E_RUN_027: &'static str = "E-RUN-027";

/// What a manifest's `inference.api_key` says.
#[derive(Debug, PartialEq, Eq)]
pub enum ApiKeyReference {
    /// The key itself.
    Literal(String),
    /// `${NAME}`.
    Environment(String),
}

// ── Sources ──────────────────────────────────────────────────────────────────

/// Where a session's inference credential comes from. Carries names and paths, never a value.
#[derive(Debug, PartialEq, Eq)]
pub enum CredentialSource {
    /// `credentials.<name>` in the global config file at `path`. Read before every keyed request.
    Config { path: String, name: String },
    /// The launching environment's variable `name`. Read once at launch.
    Environment { name: String },
    /// A literal `inference.api_key` in the manifest. Read once at launch.
    ManifestLiteral,
}

/// What a [`CredentialSource`] stands for.
#[verifier::ext_equal]
pub enum SourceView {
    Config { path: Seq<char>, name: Seq<char> },
    Environment { name: Seq<char> },
    ManifestLiteral,
}

impl View for CredentialSource {
    type V = SourceView;

    open spec fn view(&self) -> SourceView {
        match *self {
            CredentialSource::Config { path, name } => SourceView::Config {
                path: path@,
                name: name@,
            },
            CredentialSource::Environment { name } => SourceView::Environment { name: name@ },
            CredentialSource::ManifestLiteral => SourceView::ManifestLiteral,
        }
    }
}

/// What names a source for an operator.
pub open spec fn label_of(source: SourceView) -> Seq<char> {
    match source {
        SourceView::Config { path, name } => "credentials."@ + name + " in "@ + path,
        SourceView::Environment { name } => "from the environment variable "@ + name
            + ", which is read once at launch"@,
        SourceView::ManifestLiteral =>
            "written literally as inference.api_key in murmur.yaml, which is read once at launch"@,
    }
}

/// What names a source in the trace.
pub open spec fn trace_word(source: SourceView) -> Seq<char> {
    match source {
        SourceView::Config { path: _, name: _ } => "config"@,
        SourceView::Environment { name: _ } => "environment"@,
        SourceView::ManifestLiteral => "manifest"@,
    }
}

/// The credential's name.
pub open spec fn name_of(source: SourceView) -> Option<Seq<char>> {
    match source {
        SourceView::Config { path: _, name } => Some(name),
        SourceView::Environment { name } => Some(name),
        SourceView::ManifestLiteral => None,
    }
}

impl CredentialSource {
    /// Names the source for an operator, without the value.
    pub fn label(&self) -> (r: String)
        ensures
            r@ == label_of(self@),
    {
        match self {
            CredentialSource::Config { path, name } => text::cat4(
                "credentials.",
                name.as_str(),
                " in ",
                path.as_str(),
            ),
            CredentialSource::Environment { name } => text::cat3(
                "from the environment variable ",
                name.as_str(),
                ", which is read once at launch",
            ),
            CredentialSource::ManifestLiteral =>
                "written literally as inference.api_key in murmur.yaml, which is read once at launch".to_owned(),
        }
    }

    /// The value of `session_start.credential_source` and `inference_credential.source`.
    pub fn trace_name(&self) -> (r: &'static str)
        ensures
            r@ == trace_word(self@),
            self@ is Config ==> r@ == "config"@,
            self@ is Environment ==> r@ == "environment"@,
            self@ is ManifestLiteral ==> r@ == "manifest"@,
    {
        match self {
            CredentialSource::Config { path: _, name: _ } => "config",
            CredentialSource::Environment { name: _ } => "environment",
            CredentialSource::ManifestLiteral => "manifest",
        }
    }

    /// The credential name `${NAME}` referenced, or nothing for a manifest literal.
    pub fn credential_name(&self) -> (r: Option<&str>)
        ensures
            text::opt_str(r) == name_of(self@),
            r is None <==> self@ is ManifestLiteral,
            self@ is Config ==> r is Some && r->0@ == self@->Config_name,
            self@ is Environment ==> r is Some && r->0@ == self@->Environment_name,
    {
        match self {
            CredentialSource::Config { path: _, name } => Some(name.as_str()),
            CredentialSource::Environment { name } => Some(name.as_str()),
            CredentialSource::ManifestLiteral => None,
        }
    }
}

// ── Reading the file ─────────────────────────────────────────────────────────

/// The identity and last change of an opened config file, as `fstat` reports them. Identifies a
/// state of the file for reporting it unreadable once; it never decides whether to read.
#[derive(Debug, Clone, Copy, PartialEq, Eq, Structural)]
pub enum FileStamp {
    /// The file could not be opened or stat'd.
    Unavailable,
    Present {
        dev: u64,
        ino: u64,
        len: u64,
        mtime: i64,
        mtime_nsec: i64,
        ctime: i64,
        ctime_nsec: i64,
        mode: u32,
    },
}

/// Why the config could not supply a value.
#[derive(Debug, Clone, Copy, PartialEq, Eq, Structural)]
pub enum ReadFault {
    Missing,
    Unreadable,
    Unparseable,
    NoEntry,
    EmptyEntry,
}

/// The word for a fault.
pub open spec fn fault_word(fault: ReadFault) -> Seq<char> {
    match fault {
        ReadFault::Missing => "missing"@,
        ReadFault::Unreadable => "unreadable"@,
        ReadFault::Unparseable => "unparseable"@,
        ReadFault::NoEntry => "no_entry"@,
        ReadFault::EmptyEntry => "empty_entry"@,
    }
}

impl ReadFault {
    /// The word for this fault.
    pub fn as_str(self) -> (r: &'static str)
        ensures
            r@ == fault_word(self),
            self is Missing ==> r@ == "missing"@,
            self is Unreadable ==> r@ == "unreadable"@,
            self is Unparseable ==> r@ == "unparseable"@,
            self is NoEntry ==> r@ == "no_entry"@,
            self is EmptyEntry ==> r@ == "empty_entry"@,
    {
        match self {
            ReadFault::Missing => "missing",
            ReadFault::Unreadable => "unreadable",
            ReadFault::Unparseable => "unparseable",
            ReadFault::NoEntry => "no_entry",
            ReadFault::EmptyEntry => "empty_entry",
        }
    }
}

/// What became of opening and reading the config file.
#[derive(Debug, PartialEq, Eq)]
pub enum FileRead {
    /// There is no file.
    Missing,
    /// It could not be opened for another reason.
    NotOpened,
    /// It was opened, and its text could not be read.
    NotRead { stamp: FileStamp },
    /// Its text is no config file.
    NotParsed { stamp: FileStamp },
    /// The names and values of its `credentials:` map.
    Parsed { stamp: FileStamp, credentials: Vec<(String, String)> },
}

/// What a read of `credentials.<name>` gave.
#[derive(Debug, PartialEq, Eq)]
pub enum EntryRead {
    Value(String),
    Unreadable(ReadFault),
}

/// The value of a name in a list of names and values.
pub open spec fn entry_of(credentials: Seq<(String, String)>, name: Seq<char>) -> Option<Seq<char>>
    decreases credentials.len(),
{
    if credentials.len() == 0 {
        None
    } else if credentials[0].0@ == name {
        Some(credentials[0].1@)
    } else {
        entry_of(credentials.drop_first(), name)
    }
}

/// What a read of a name gives: the value, or why there is none.
pub open spec fn value_read(found: FileRead, name: Seq<char>) -> Result<Seq<char>, ReadFault> {
    match found {
        FileRead::Missing => Err(ReadFault::Missing),
        FileRead::NotOpened => Err(ReadFault::Unreadable),
        FileRead::NotRead { stamp: _ } => Err(ReadFault::Unreadable),
        FileRead::NotParsed { stamp: _ } => Err(ReadFault::Unparseable),
        FileRead::Parsed { stamp: _, credentials } => match entry_of(credentials@, name) {
            None => Err(ReadFault::NoEntry),
            Some(value) => if text::trim(value).len() == 0 {
                Err(ReadFault::EmptyEntry)
            } else {
                Ok(value)
            },
        },
    }
}

/// The stamp a read was made at.
pub open spec fn stamp_of(found: FileRead) -> FileStamp {
    match found {
        FileRead::Missing => FileStamp::Unavailable,
        FileRead::NotOpened => FileStamp::Unavailable,
        FileRead::NotRead { stamp } => stamp,
        FileRead::NotParsed { stamp } => stamp,
        FileRead::Parsed { stamp, credentials: _ } => stamp,
    }
}

fn find_entry(credentials: &[(String, String)], name: &str) -> (r: Option<String>)
    ensures
        text::opt_text(r) == entry_of(credentials@, name@),
{
    let mut i: usize = 0;
    proof {
        assert(credentials@.skip(0) =~= credentials@);
    }
    while i < credentials.len()
        invariant
            i <= credentials@.len(),
            entry_of(credentials@.skip(i as int), name@) == entry_of(credentials@, name@),
        decreases credentials@.len() - i,
    {
        proof {
            assert(credentials@.skip(i as int)[0] == credentials@[i as int]);
            assert(credentials@.skip(i as int).drop_first() =~= credentials@.skip(i + 1));
        }
        if text::same(credentials[i].0.as_str(), name) {
            return Some(credentials[i].1.clone());
        }
        i += 1;
    }
    None
}

/// Reads `credentials.<name>`, with the stamp of the file it was read from.
pub fn read_entry(found: &FileRead, name: &str) -> (r: (FileStamp, EntryRead))
    ensures
        r.0 == stamp_of(*found),
        match (r.1, value_read(*found, name@)) {
            (EntryRead::Value(value), Ok(wanted)) => value@ == wanted,
            (EntryRead::Unreadable(fault), Err(wanted)) => fault == wanted,
            _ => false,
        },
        found is Missing <==> r.1 == EntryRead::Unreadable(ReadFault::Missing),
        found is NotParsed <==> r.1 == EntryRead::Unreadable(ReadFault::Unparseable),
        found is NotOpened || found is NotRead <==> r.1 == EntryRead::Unreadable(
            ReadFault::Unreadable,
        ),
        r.1 is Value ==> found is Parsed && text::trim(r.1->Value_0@).len() > 0,
        found is Missing || found is NotOpened ==> r.0 is Unavailable,
        found is NotRead ==> r.0 == found->NotRead_stamp,
        found is NotParsed ==> r.0 == found->NotParsed_stamp,
        found is Parsed ==> r.0 == found->Parsed_stamp,
{
    match found {
        FileRead::Missing => (FileStamp::Unavailable, EntryRead::Unreadable(ReadFault::Missing)),
        FileRead::NotOpened => (
            FileStamp::Unavailable,
            EntryRead::Unreadable(ReadFault::Unreadable),
        ),
        FileRead::NotRead { stamp } => (*stamp, EntryRead::Unreadable(ReadFault::Unreadable)),
        FileRead::NotParsed { stamp } => (*stamp, EntryRead::Unreadable(ReadFault::Unparseable)),
        FileRead::Parsed { stamp, credentials } => match find_entry(credentials.as_slice(), name) {
            None => (*stamp, EntryRead::Unreadable(ReadFault::NoEntry)),
            Some(value) => if text::is_blank(value.as_str()) {
                (*stamp, EntryRead::Unreadable(ReadFault::EmptyEntry))
            } else {
                (*stamp, EntryRead::Value(value))
            },
        },
    }
}

/// Whether the config file holds a non-empty `credentials.<name>`. Returns nothing of the value.
pub fn config_holds_credential(found: &FileRead, name: &str) -> (r: bool)
    ensures
        r == value_read(*found, name@) is Ok,
{
    match read_entry(found, name).1 {
        EntryRead::Value(_) => true,
        EntryRead::Unreadable(_) => false,
    }
}

// ── The credential ───────────────────────────────────────────────────────────

/// A provider rejection still waiting to be reported.
#[derive(Debug, Clone, Copy, PartialEq, Eq, Structural)]
pub struct CredentialRejection {
    pub status: u16,
    /// Whether the rejected request was the one resend made after a re-read found a new value.
    pub retried: bool,
}

/// What made a re-read.
#[derive(Debug, Clone, Copy, PartialEq, Eq, Structural)]
pub enum RotationTrigger {
    FileChanged,
    Rejection,
}

impl RotationTrigger {
    /// The word for this trigger.
    pub fn as_str(self) -> (r: &'static str)
        ensures
            r@ == (match self {
                RotationTrigger::FileChanged => "file_changed"@,
                RotationTrigger::Rejection => "rejection"@,
            }),
    {
        match self {
            RotationTrigger::FileChanged => "file_changed",
            RotationTrigger::Rejection => "rejection",
        }
    }
}

/// What an `inference_credential` trace event records.
#[derive(Debug, Clone, Copy, PartialEq, Eq, Structural)]
pub enum CredentialChange {
    /// A re-read found a different value.
    Rotated { trigger: RotationTrigger },
    /// The provider answered a request carrying the credential with `status`.
    Rejected { status: u16, retried: bool },
    /// The config could not supply a value; the last good one stays in use.
    Unreadable { reason: ReadFault },
}

/// One session's inference credential.
pub struct InferenceCredential {
    source: CredentialSource,
    /// The last good value. Never cleared: an unreadable source keeps it.
    value: String,
    /// The file state and reason that were last reported unreadable.
    reported: Option<(FileStamp, ReadFault)>,
    pending: Option<CredentialRejection>,
}

/// What an [`InferenceCredential`] stands for.
#[verifier::ext_equal]
pub struct CredentialView {
    pub source: SourceView,
    pub value: Seq<char>,
    pub reported: Option<(FileStamp, ReadFault)>,
    pub pending: Option<CredentialRejection>,
}

impl View for InferenceCredential {
    type V = CredentialView;

    closed spec fn view(&self) -> CredentialView {
        CredentialView {
            source: self.source@,
            value: self.value@,
            reported: self.reported,
            pending: self.pending,
        }
    }
}

/// A credential as it is at launch.
pub open spec fn fresh(source: SourceView, value: Seq<char>) -> CredentialView {
    CredentialView { source, value, reported: None, pending: None }
}

/// A credential and a change after a read. A source other than the config is never read again.
pub open spec fn refreshed(c: CredentialView, after_rejection: bool, found: FileRead) -> (
    CredentialView,
    Option<CredentialChange>,
) {
    match c.source {
        SourceView::Config { path: _, name } => match value_read(found, name) {
            Ok(value) => (
                CredentialView { value, reported: None, ..c },
                if value == c.value {
                    None
                } else {
                    Some(
                        CredentialChange::Rotated {
                            trigger: if after_rejection {
                                RotationTrigger::Rejection
                            } else {
                                RotationTrigger::FileChanged
                            },
                        },
                    )
                },
            ),
            Err(reason) => if c.reported == Some((stamp_of(found), reason)) {
                (c, None)
            } else {
                (
                    CredentialView { reported: Some((stamp_of(found), reason)), ..c },
                    Some(CredentialChange::Unreadable { reason }),
                )
            },
        },
        _ => (c, None),
    }
}

/// How a rejection reads, without the code.
pub open spec fn rejection_text(source: SourceView, rejection: CredentialRejection) -> Seq<char> {
    let message = "the provider rejected the inference credential "@ + label_of(source)
        + " (HTTP "@ + text::decimal(rejection.status as nat) + ")"@;
    if rejection.retried {
        message
            + "; the credential was re-read after the first rejection and its new value was rejected too"@
    } else {
        message
    }
}

/// What an operator does about a rejection.
pub open spec fn hint_text(source: SourceView) -> Seq<char> {
    match source {
        SourceView::Config { path: _, name } => "replace it with `mur config set -g credentials."@
            + name + " <key>`; running capsules use it on their next call"@,
        _ =>
            "this capsule reads its key only at launch; restart it with a valid key, or store the key with `mur config set -g credentials."@
            + (match name_of(source) {
                Some(name) => name,
                None => "<NAME>"@,
            }) + " <key>`"@,
    }
}

/// How a source shows itself in a debug line.
pub open spec fn source_debug(source: SourceView) -> Seq<char> {
    match source {
        SourceView::Config { path, name } => "Config { path: "@ + text::debug_text(path)
            + ", name: "@ + text::debug_text(name) + " }"@,
        SourceView::Environment { name } => "Environment { name: "@ + text::debug_text(name)
            + " }"@,
        SourceView::ManifestLiteral => "ManifestLiteral"@,
    }
}

/// What a launch decides of a reference: the source and the value, or that there is none. `file` is
/// the config file with what became of reading it, `variable` the environment variable's value.
pub open spec fn resolved(
    reference: ApiKeyReference,
    file: Option<(Seq<char>, FileRead)>,
    variable: Option<Seq<char>>,
) -> Option<(SourceView, Seq<char>)> {
    match reference {
        ApiKeyReference::Literal(value) => Some((SourceView::ManifestLiteral, value@)),
        ApiKeyReference::Environment(name) => {
            let from_config = match file {
                Some((_, found)) => value_read(found, name@),
                None => Err(ReadFault::Missing),
            };
            match (file, from_config, variable) {
                (Some((path, _)), Ok(value), _) => Some(
                    (SourceView::Config { path, name: name@ }, value),
                ),
                (_, _, Some(value)) => if value.len() > 0 {
                    Some((SourceView::Environment { name: name@ }, value))
                } else {
                    None
                },
                _ => None,
            }
        },
    }
}

/// The warning a launch prints: that of a wide config file, when the value was read from it.
pub open spec fn launch_warning(source: SourceView, file: Option<(Seq<char>, FileRead)>) -> Option<
    Seq<char>,
> {
    match (source, file) {
        (SourceView::Config { path, name }, Some((_, found))) => match stamp_of(found) {
            FileStamp::Present { mode, .. } => if murmur_home::lets_others_in(mode) {
                Some(murmur_home::credential_warning(path, name, mode))
            } else {
                None
            },
            FileStamp::Unavailable => None,
        },
        _ => None,
    }
}

/// The config file, with what became of reading it.
#[derive(Debug, PartialEq, Eq)]
pub struct ConfigFile {
    pub path: String,
    pub found: FileRead,
}

/// What an optional config file stands for.
pub open spec fn file_view(file: Option<ConfigFile>) -> Option<(Seq<char>, FileRead)> {
    match file {
        Some(config) => Some((config.path@, config.found)),
        None => None,
    }
}

/// Whether a result is the credential a launch decides on, as it is at launch, with the warning to
/// print; or names the variable and the file that held nothing.
pub open spec fn launches(
    reference: ApiKeyReference,
    file: Option<(Seq<char>, FileRead)>,
    variable: Option<Seq<char>>,
    r: Result<(InferenceCredential, Option<String>), RuntimeError>,
) -> bool {
    match (r, resolved(reference, file, variable)) {
        (Ok((credential, warning)), Some((source, value))) => {
            &&& credential@ == fresh(source, value)
            &&& text::opt_text(warning) == launch_warning(source, file)
        },
        (
            Err(RuntimeError::InferenceCredentialNotFound { variable: name, credentials_file }),
            None,
        ) => {
            &&& reference matches ApiKeyReference::Environment(wanted) && name@ == wanted@
            &&& text::opt_text(credentials_file) == (match file {
                Some((path, _)) => Some(path),
                None => None,
            })
        },
        _ => false,
    }
}

impl InferenceCredential {
    fn new(source: CredentialSource, value: String) -> (r: Self)
        ensures
            r@ == fresh(source@, value@),
    {
        InferenceCredential { source, value, reported: None, pending: None }
    }

    /// Resolves `reference` in precedence order: a non-empty `credentials.<NAME>` in the config
    /// file, then a non-empty environment variable `NAME`. A literal is used as is. With a value
    /// from the config comes the warning to print when the file grants any group or other bit.
    pub fn resolve(
        reference: &ApiKeyReference,
        file: &Option<ConfigFile>,
        variable: &Option<String>,
    ) -> (r: Result<(InferenceCredential, Option<String>), RuntimeError>)
        ensures
            launches(*reference, file_view(*file), text::opt_text(*variable), r),
            reference matches ApiKeyReference::Literal(value) ==> r is Ok && (r->Ok_0).0@.value
                == value@ && (r->Ok_0).0@.source is ManifestLiteral && (r->Ok_0).1 is None,
            r is Ok ==> (r->Ok_0).0@.pending is None && (r->Ok_0).0@.reported is None,
            r is Ok && (r->Ok_0).0@.source is Environment ==> variable is Some && variable->0@
                == (r->Ok_0).0@.value && (r->Ok_0).1 is None,
            r is Ok && (r->Ok_0).0@.source is Config ==> file is Some
                && (r->Ok_0).0@.source->Config_path == file->0.path@ && value_read(
                file->0.found,
                (r->Ok_0).0@.source->Config_name,
            ) == Ok::<Seq<char>, ReadFault>((r->Ok_0).0@.value),
            r is Ok && (r->Ok_0).0@.source is Config ==> ((r->Ok_0).1 is Some
                <==> file->0.found is Parsed && file->0.found->Parsed_stamp is Present
                && murmur_home::lets_others_in(file->0.found->Parsed_stamp->mode)),
    {
        let name = match reference {
            ApiKeyReference::Literal(value) => {
                return Ok(
                    (
                        InferenceCredential::new(CredentialSource::ManifestLiteral, value.clone()),
                        None,
                    ),
                );
            },
            ApiKeyReference::Environment(name) => name,
        };
        if let Some(config) = file {
            let (stamp, read) = read_entry(&config.found, name.as_str());
            if let EntryRead::Value(value) = read {
                let warning = match stamp {
                    FileStamp::Present {
                        dev: _,
                        ino: _,
                        len: _,
                        mtime: _,
                        mtime_nsec: _,
                        ctime: _,
                        ctime_nsec: _,
                        mode,
                    } => murmur_home::warn_on_wide_credential_file(
                        config.path.as_str(),
                        name.as_str(),
                        mode,
                    ),
                    FileStamp::Unavailable => None,
                };
                let source = CredentialSource::Config {
                    path: config.path.clone(),
                    name: name.clone(),
                };
                return Ok((InferenceCredential::new(source, value), warning));
            }
        }
        proof {
            reveal_strlit("");
        }
        if let Some(value) = variable {
            proof {
                if value@.len() == 0 {
                    assert(value@ =~= ""@);
                }
            }
            if !text::same(value.as_str(), "") {
                let source = CredentialSource::Environment { name: name.clone() };
                return Ok((InferenceCredential::new(source, value.clone()), None));
            }
        }
        let credentials_file = match file {
            Some(config) => Some(config.path.clone()),
            None => None,
        };
        Err(
            RuntimeError::InferenceCredentialNotFound { variable: name.clone(), credentials_file },
        )
    }

    /// Where the credential comes from.
    pub fn source(&self) -> (r: &CredentialSource)
        ensures
            r@ == self@.source,
    {
        &self.source
    }

    /// Whether the file is to be read before the next keyed request.
    pub fn reads_the_file(&self) -> (r: bool)
        ensures
            r == self@.source is Config,
    {
        match self.source {
            CredentialSource::Config { path: _, name: _ } => true,
            _ => false,
        }
    }

    /// The value to attach to the next request.
    pub fn value(&self) -> (r: String)
        ensures
            r@ == self@.value,
    {
        self.value.clone()
    }

    /// Takes what became of reading the file: a value different from the last one read replaces
    /// it, and an unreadable file or entry keeps it. Says what the trace records, if anything.
    pub fn refresh(&mut self, after_rejection: bool, found: &FileRead) -> (r: Option<
        CredentialChange,
    >)
        ensures
            (final(self)@, r) == refreshed(old(self)@, after_rejection, *found),
            final(self)@.source == old(self)@.source && final(self)@.pending == old(self)@.pending,
            !(old(self)@.source is Config) ==> r is None && final(self)@ == old(self)@,
            r matches Some(CredentialChange::Rotated { trigger }) ==> (trigger is Rejection
                <==> after_rejection) && final(self)@.value != old(self)@.value,
            !(r matches Some(CredentialChange::Rotated { trigger: _ })) ==> final(self)@.value
                == old(self)@.value,
    {
        let (stamp, read) = match &self.source {
            CredentialSource::Config { path: _, name } => read_entry(found, name.as_str()),
            _ => return None,
        };
        match read {
            EntryRead::Value(value) => {
                self.reported = None;
                if text::same(value.as_str(), self.value.as_str()) {
                    None
                } else {
                    self.value = value;
                    let trigger = if after_rejection {
                        RotationTrigger::Rejection
                    } else {
                        RotationTrigger::FileChanged
                    };
                    Some(CredentialChange::Rotated { trigger })
                }
            },
            EntryRead::Unreadable(reason) => {
                let known = match self.reported {
                    Some((at, why)) => at == stamp && why == reason,
                    None => false,
                };
                if known {
                    None
                } else {
                    self.reported = Some((stamp, reason));
                    Some(CredentialChange::Unreadable { reason })
                }
            },
        }
    }

    /// The line to print when the config could not supply a value.
    pub fn unreadable_warning(&self, reason: ReadFault) -> (r: String)
        ensures
            r@ == "[capsule-runtime] warning: the inference credential "@ + label_of(self@.source)
                + " could not be read ("@ + fault_word(reason)
                + "); the value read before stays in use"@,
    {
        text::cat5(
            "[capsule-runtime] warning: the inference credential ",
            self.source.label().as_str(),
            " could not be read (",
            reason.as_str(),
            "); the value read before stays in use",
        )
    }

    /// Records that the provider rejected a request carrying this credential. Says what the trace
    /// records.
    pub fn record_rejection(&mut self, status: u16, retried: bool) -> (r: CredentialChange)
        ensures
            final(self)@ == (CredentialView {
                pending: Some(CredentialRejection { status, retried }),
                ..old(self)@
            }),
            r == (CredentialChange::Rejected { status, retried }),
    {
        self.pending = Some(CredentialRejection { status, retried });
        CredentialChange::Rejected { status, retried }
    }

    /// Forgets a pending rejection once a later request carrying the credential was accepted.
    pub fn clear_rejection(&mut self)
        ensures
            final(self)@ == (CredentialView { pending: None, ..old(self)@ }),
    {
        self.pending = None;
    }

    /// Takes the pending rejection.
    pub fn take_rejection(&mut self) -> (r: Option<CredentialRejection>)
        ensures
            r == old(self)@.pending,
            final(self)@ == (CredentialView { pending: None, ..old(self)@ }),
    {
        let pending = self.pending;
        self.pending = None;
        pending
    }

    /// The failure message for `rejection`, without the code.
    pub fn rejection_message(&self, rejection: CredentialRejection) -> (r: String)
        ensures
            r@ == rejection_text(self@.source, rejection),
    {
        let mut message = text::cat5(
            "the provider rejected the inference credential ",
            self.source.label().as_str(),
            " (HTTP ",
            text::decimal_of(rejection.status as u64).as_str(),
            ")",
        );
        if rejection.retried {
            message.append(
                "; the credential was re-read after the first rejection and its new value was rejected too",
            );
        }
        message
    }

    /// What the operator does about a rejection from this source.
    pub fn rejection_hint(&self) -> (r: String)
        ensures
            r@ == hint_text(self@.source),
    {
        match &self.source {
            CredentialSource::Config { path: _, name } => text::cat3(
                "replace it with `mur config set -g credentials.",
                name.as_str(),
                " <key>`; running capsules use it on their next call",
            ),
            other => {
                let name: &str = match other.credential_name() {
                    Some(name) => name,
                    None => "<NAME>",
                };
                text::cat3(
                    "this capsule reads its key only at launch; restart it with a valid key, or store the key with `mur config set -g credentials.",
                    name,
                    " <key>`",
                )
            },
        }
    }

    /// Takes a pending rejection and, when there was one, gives its message and the two lines to
    /// print: the error with its code, and the hint.
    pub fn report_rejection(&mut self) -> (r: Option<(String, String, String)>)
        ensures
            final(self)@ == (CredentialView { pending: None, ..old(self)@ }),
            match (r, old(self)@.pending) {
                (Some((message, error, hint)), Some(rejection)) => {
                    &&& message@ == rejection_text(old(self)@.source, rejection)
                    &&& error@ == "error["@ + E_RUN_027@ + "]: "@ + message@
                    &&& hint@ == "  hint: "@ + hint_text(old(self)@.source)
                },
                (None, None) => true,
                _ => false,
            },
    {
        match self.take_rejection() {
            Some(rejection) => {
                let message = self.rejection_message(rejection);
                let error = text::cat4("error[", E_RUN_027, "]: ", message.as_str());
                let hint = text::cat2("  hint: ", self.rejection_hint().as_str());
                Some((message, error, hint))
            },
            None => None,
        }
    }

    /// How the credential shows itself in a debug line: its source, and no value.
    pub fn redacted(&self) -> (r: String)
        ensures
            r@ == "InferenceCredential { source: "@ + source_debug(self@.source)
                + ", value: \"<redacted>\" }"@,
    {
        let source = match &self.source {
            CredentialSource::Config { path, name } => text::cat5(
                "Config { path: ",
                text::debug_of(path.as_str()).as_str(),
                ", name: ",
                text::debug_of(name.as_str()).as_str(),
                " }",
            ),
            CredentialSource::Environment { name } => text::cat3(
                "Environment { name: ",
                text::debug_of(name.as_str()).as_str(),
                " }",
            ),
            CredentialSource::ManifestLiteral => "ManifestLiteral".to_owned(),
        };
        text::cat3(
            "InferenceCredential { source: ",
            source.as_str(),
            ", value: \"<redacted>\" }",
        )
    }
}

// ── Laws ─────────────────────────────────────────────────────────────────────

/// A value in use is the last one that was read: a read that gives a value puts it in use, and any
/// other leaves the one before.
pub proof fn the_last_good_value_stays(c: CredentialView, after_rejection: bool, found: FileRead)
    ensures
        refreshed(c, after_rejection, found).0.value == (match c.source {
            SourceView::Config { path: _, name } => match value_read(found, name) {
                Ok(value) => value,
                Err(_) => c.value,
            },
            _ => c.value,
        }),
        refreshed(c, after_rejection, found).0.source == c.source,
        refreshed(c, after_rejection, found).0.pending == c.pending,
        (refreshed(c, after_rejection, found).1 matches Some(
            CredentialChange::Rotated { trigger: _ },
        )) <==> refreshed(c, after_rejection, found).0.value != c.value,
{
}

/// One state of a broken file is reported once, however often and for whatever reason it is read.
pub proof fn a_broken_file_is_reported_once(
    c: CredentialView,
    first: bool,
    second: bool,
    found: FileRead,
)
    requires
        refreshed(c, first, found).1 matches Some(CredentialChange::Unreadable { reason: _ }),
    ensures
        refreshed(refreshed(c, first, found).0, second, found).1 is None,
        refreshed(refreshed(c, first, found).0, second, found).0 == refreshed(c, first, found).0,
{
}

/// A read that yields a value lets a failure seen before be reported again.
pub proof fn a_good_read_resets_the_report(
    c: CredentialView,
    good: FileRead,
    broken: FileRead,
    after_rejection: bool,
)
    requires
        c.source matches SourceView::Config { path: _, name } && value_read(good, name) is Ok
            && value_read(broken, name) is Err,
    ensures
        refreshed(refreshed(c, after_rejection, good).0, after_rejection, broken).1 matches Some(
            CredentialChange::Unreadable { reason: _ },
        ),
{
}

/// A value from the environment or the manifest never changes, whatever the file holds.
pub proof fn what_is_read_once_never_changes(
    c: CredentialView,
    after_rejection: bool,
    found: FileRead,
)
    requires
        !(c.source is Config),
    ensures
        refreshed(c, after_rejection, found) == (c, None::<CredentialChange>),
{
}

/// The config comes before the environment, and the environment is asked only when the config
/// holds nothing.
pub proof fn the_config_comes_first(
    name: String,
    path: Seq<char>,
    found: FileRead,
    variable: Option<Seq<char>>,
)
    ensures
        match resolved(ApiKeyReference::Environment(name), Some((path, found)), variable) {
            Some((source, value)) => if value_read(found, name@) is Ok {
                source == (SourceView::Config { path, name: name@ }) && Ok::<Seq<char>, ReadFault>(
                    value,
                ) == value_read(found, name@)
            } else {
                source == (SourceView::Environment { name: name@ }) && variable == Some(value)
            },
            None => value_read(found, name@) is Err && (variable is None
                || variable->0.len() == 0),
        },
{
}

/// The first entry of a name holds its value, and a name without one has none. A value that is not
/// blank is read as it stands.
pub proof fn the_first_entry_of_a_name_counts(
    stamp: FileStamp,
    credentials: Vec<(String, String)>,
    i: int,
    name: Seq<char>,
)
    ensures
        0 <= i < credentials@.len() && credentials@[i].0@ == name && (forall|j: int|
            0 <= j < i ==> (#[trigger] credentials@[j]).0@ != name) ==> value_read(
            FileRead::Parsed { stamp, credentials },
            name,
        ) == (if text::trim(credentials@[i].1@).len() > 0 {
            Ok::<Seq<char>, ReadFault>(credentials@[i].1@)
        } else {
            Err::<Seq<char>, ReadFault>(ReadFault::EmptyEntry)
        }),
        (forall|j: int| 0 <= j < credentials@.len() ==> (#[trigger] credentials@[j]).0@ != name)
            ==> value_read(FileRead::Parsed { stamp, credentials }, name) == Err::<
            Seq<char>,
            ReadFault,
        >(ReadFault::NoEntry),
{
    lemma_entry_of(credentials@, i, name);
}

proof fn lemma_entry_of(credentials: Seq<(String, String)>, i: int, name: Seq<char>)
    ensures
        0 <= i < credentials.len() && credentials[i].0@ == name && (forall|j: int|
            0 <= j < i ==> (#[trigger] credentials[j]).0@ != name) ==> entry_of(credentials, name)
            == Some(credentials[i].1@),
        (forall|j: int| 0 <= j < credentials.len() ==> (#[trigger] credentials[j]).0@ != name)
            ==> entry_of(credentials, name) is None,
    decreases credentials.len(),
{
    if credentials.len() > 0 {
        let rest = credentials.drop_first();
        lemma_entry_of(rest, i - 1, name);
        assert(forall|j: int| 0 <= j < rest.len() ==> rest[j] == credentials[j + 1]);
        if 0 < i < credentials.len() && credentials[i].0@ == name && (forall|j: int|
            0 <= j < i ==> (#[trigger] credentials[j]).0@ != name) {
            assert(credentials[0].0@ != name);
            assert(rest[i - 1] == credentials[i]);
        }
        if forall|j: int| 0 <= j < credentials.len() ==> (#[trigger] credentials[j]).0@ != name {
            assert(credentials[0].0@ != name);
        }
    }
}

/// Without a config file a named key comes from the environment, and only when it is set to
/// something.
pub proof fn the_environment_stands_in_for_the_config(name: String, variable: Option<Seq<char>>)
    ensures
        match resolved(ApiKeyReference::Environment(name), None, variable) {
            Some((source, value)) => source == (SourceView::Environment { name: name@ })
                && variable == Some(value) && value.len() > 0,
            None => variable is None || variable->0.len() == 0,
        },
{
}

} // verus!
