//! The managed provider in the engine's `config.toml`.
//!
//! Only the managed entries are put right; every other entry stays. A file that is not
//! TOML counts as an empty one: the caller keeps a copy of what it held.
use std::path::{Path, PathBuf};
use vstd::prelude::*;
use crate::managed_env;
use crate::managed_gateway;
use crate::number;
use crate::text;

verus! {

#[verifier::external_type_specification]
#[verifier::external_body]
pub struct ExDocumentMut(toml_edit::DocumentMut);

#[verifier::external_type_specification]
#[verifier::external_body]
pub struct ExTable(toml_edit::Table);

#[verifier::external_type_specification]
#[verifier::external_body]
pub struct ExItem(toml_edit::Item);

/// What stands under a key of a TOML table.
pub enum TomlEntry {
    /// A string.
    Text(Seq<char>),
    /// An array that holds strings and nothing else.
    Texts(Seq<Seq<char>>),
    /// A table with a header of its own or made by dotted keys, with the comments and blank
    /// lines in front of its header and the comment behind it. An inline table is none.
    Table {
        front: Option<Seq<char>>,
        behind: Option<Seq<char>>,
        entries: Map<Seq<char>, TomlSlot>,
    },
    /// Anything else.
    Other(toml_edit::Item),
}

/// How a string or an array of strings is written, as far as that is kept with it: the
/// space in front of it, its own notation, such as its quotes, and the comment behind it.
pub struct Notation {
    pub before: Option<Seq<char>>,
    pub own: Option<Seq<char>>,
    pub behind: Option<Seq<char>>,
}

/// The notation of a value that keeps none and is written in the usual way.
pub open spec fn usual() -> Notation {
    Notation { before: None, own: None, behind: None }
}

/// A key's place in a TOML table: the comments and blank lines kept in front of the key, if
/// any are, what stands under it, and how a value there is written.
pub struct TomlSlot {
    pub front: Option<Seq<char>>,
    pub entry: TomlEntry,
    pub notation: Notation,
}

/// The entries of a table by key, a key that holds nothing counted among the others. In
/// front of a key stands the prefix of its leaf decor. The notation of a string is its
/// representation between the prefix and the suffix of its decor; that of an array is the
/// text between its brackets, unless that is laid out just as `Array::push` does it; that of
/// anything else is the usual one, since the entry keeps all there is.
pub uninterp spec fn table_entries(table: toml_edit::Table) -> Map<Seq<char>, TomlSlot>;

/// What stands in front of a table's header: the prefix of its decor.
pub uninterp spec fn table_front(table: toml_edit::Table) -> Option<Seq<char>>;

/// What stands behind a table's header: the suffix of its decor.
pub uninterp spec fn table_behind(table: toml_edit::Table) -> Option<Seq<char>>;

/// The entries of the root table of a document, `None` if its root is no table.
pub uninterp spec fn document_entries(doc: toml_edit::DocumentMut) -> Option<
    Map<Seq<char>, TomlSlot>,
>;

/// The comments and blank lines behind the last entry of a document.
pub uninterp spec fn document_trailing(doc: toml_edit::DocumentMut) -> Seq<char>;

/// The text that a document is written as.
pub uninterp spec fn document_text(doc: toml_edit::DocumentMut) -> Seq<char>;

/// What parsing a text as TOML gives: the entries of the root table and what stands behind
/// them, or the message of the error.
pub uninterp spec fn parsed_document(text: Seq<char>) -> Result<
    (Map<Seq<char>, TomlSlot>, Seq<char>),
    Seq<char>,
>;

/// `DocumentMut::from_str`: a document with the entries of the text, or an error. The
/// outcome depends on the text alone. The root of a parsed document is a table.
#[verifier::external_body]
fn parse_document(text: &str) -> (r: Result<toml_edit::DocumentMut, String>)
    ensures
        match r {
            Ok(doc) => document_entries(doc) matches Some(entries) && parsed_document(text@)
                == Ok::<(Map<Seq<char>, TomlSlot>, Seq<char>), Seq<char>>(
                (entries, document_trailing(doc)),
            ),
            Err(message) => parsed_document(text@) == Err::<
                (Map<Seq<char>, TomlSlot>, Seq<char>),
                Seq<char>,
            >(message@),
        },
{
    match text.parse::<toml_edit::DocumentMut>() {
        Ok(doc) => Ok(doc),
        Err(error) => Err(error.to_string()),
    }
}

/// `DocumentMut::new`: a document without entries and with nothing behind them.
#[verifier::external_body]
fn new_document() -> (r: toml_edit::DocumentMut)
    ensures
        document_entries(r) == Some(Map::<Seq<char>, TomlSlot>::empty()),
        document_trailing(r) == Seq::<char>::empty(),
{
    toml_edit::DocumentMut::new()
}

/// `DocumentMut::as_table_mut`: the root table, through which the document is changed; what
/// stands behind the entries is not. It panics if the root is no table.
#[verifier::external_body]
fn root_table(doc: &mut toml_edit::DocumentMut) -> (r: &mut toml_edit::Table)
    requires
        document_entries(*old(doc)) is Some,
    ensures
        document_entries(*old(doc)) == Some(table_entries(*r)),
        document_entries(*final(doc)) == Some(table_entries(*final(r))),
        document_trailing(*final(doc)) == document_trailing(*old(doc)),
{
    doc.as_table_mut()
}

/// `DocumentMut::to_string`: the text of the document. It panics if the root is no table.
/// How entries and comments are laid out in the text is not stated, nor that parsing it
/// gives them back.
#[verifier::external_body]
fn document_to_string(doc: &toml_edit::DocumentMut) -> (r: String)
    requires
        document_entries(*doc) is Some,
    ensures
        r@ == document_text(*doc),
{
    doc.to_string()
}

/// What is kept in front of a key; nothing in front of one that is not there.
pub open spec fn front_of(entries: Map<Seq<char>, TomlSlot>, key: Seq<char>) -> Option<Seq<char>> {
    if entries.contains_key(key) {
        entries[key].front
    } else {
        None
    }
}

/// Entries with `entry` under a key, written in the usual way. What is kept in front of the
/// key stays there.
pub open spec fn with_entry(
    entries: Map<Seq<char>, TomlSlot>,
    key: Seq<char>,
    entry: TomlEntry,
) -> Map<Seq<char>, TomlSlot> {
    entries.insert(key, TomlSlot { front: front_of(entries, key), entry, notation: usual() })
}

/// What stands in front of a table's header and behind it.
pub type HeaderDecor = (Option<Seq<char>>, Option<Seq<char>>);

/// The table under a key: what stands round its header, and its entries. A new one if
/// nothing stands under the key. `None` if something else does.
pub open spec fn sub_entries(entries: Map<Seq<char>, TomlSlot>, key: Seq<char>) -> Option<
    (HeaderDecor, Map<Seq<char>, TomlSlot>),
> {
    if !entries.contains_key(key) {
        Some(((None, None), Map::empty()))
    } else {
        match entries[key].entry {
            TomlEntry::Table { front, behind, entries } => Some(((front, behind), entries)),
            _ => None,
        }
    }
}

/// `Table::index_mut` with an assignment: the string replaces what stands under the key, or
/// is added. It is written in the usual way. A key that is there stays, with what is in
/// front of it.
#[verifier::external_body]
fn set_text(table: &mut toml_edit::Table, key: &str, text: &str)
    ensures
        table_entries(*final(table)) == with_entry(
            table_entries(*old(table)),
            key@,
            TomlEntry::Text(text@),
        ),
        table_front(*final(table)) == table_front(*old(table)),
        table_behind(*final(table)) == table_behind(*old(table)),
{
    table[key] = toml_edit::value(text);
}

/// `Table::index_mut` with an assignment: an array of the two strings, made with
/// `Array::push`, replaces what stands under the key, or is added. It is written in the
/// usual way. A key that is there stays, with what is in front of it.
#[verifier::external_body]
fn set_pair(table: &mut toml_edit::Table, key: &str, first: &str, second: &str)
    ensures
        table_entries(*final(table)) == with_entry(
            table_entries(*old(table)),
            key@,
            TomlEntry::Texts(seq![first@, second@]),
        ),
        table_front(*final(table)) == table_front(*old(table)),
        table_behind(*final(table)) == table_behind(*old(table)),
{
    let mut array = toml_edit::Array::new();
    array.push(first);
    array.push(second);
    table[key] = toml_edit::value(array);
}

/// `Table::remove`: the key is gone, with what stands under it and in front of it.
#[verifier::external_body]
fn remove_entry(table: &mut toml_edit::Table, key: &str)
    ensures
        table_entries(*final(table)) == table_entries(*old(table)).remove(key@),
        table_front(*final(table)) == table_front(*old(table)),
        table_behind(*final(table)) == table_behind(*old(table)),
{
    let _ = table.remove(key);
}

/// `Table::get` and `Item::as_str`: the string under the key, if a string stands there.
#[verifier::external_body]
fn get_text(table: &toml_edit::Table, key: &str) -> (r: Option<String>)
    ensures
        match r {
            Some(text) => table_entries(*table).contains_key(key@) && table_entries(
                *table,
            )[key@].entry == TomlEntry::Text(text@),
            None => !(table_entries(*table).contains_key(key@) && table_entries(
                *table,
            )[key@].entry is Text),
        },
{
    table.get(key).and_then(toml_edit::Item::as_str).map(str::to_owned)
}

/// `Table::entry`, `Entry::or_insert` and `Item::as_table_mut`: the table under the key,
/// through which the outer table is changed. It is added without entries if nothing stands
/// there. `None`, with nothing changed, if something else does.
#[verifier::external_body]
fn sub_table<'a>(table: &'a mut toml_edit::Table, key: &str) -> (r: Option<
    &'a mut toml_edit::Table,
>)
    ensures
        table_front(*final(table)) == table_front(*old(table)),
        table_behind(*final(table)) == table_behind(*old(table)),
        match r {
            Some(sub) => {
                &&& sub_entries(table_entries(*old(table)), key@) == Some(
                    ((table_front(*sub), table_behind(*sub)), table_entries(*sub)),
                )
                &&& table_entries(*final(table)) == with_entry(
                    table_entries(*old(table)),
                    key@,
                    TomlEntry::Table {
                        front: table_front(*final(sub)),
                        behind: table_behind(*final(sub)),
                        entries: table_entries(*final(sub)),
                    },
                )
            },
            None => {
                &&& sub_entries(table_entries(*old(table)), key@) is None
                &&& table_entries(*final(table)) == table_entries(*old(table))
            },
        },
{
    table.entry(key).or_insert(toml_edit::Item::Table(toml_edit::Table::new())).as_table_mut()
}

/// Why the managed provider cannot be written: something else than a table stands in its
/// place.
#[derive(Debug, Clone, Copy, PartialEq, Eq, Structural)]
pub enum ConfigError {
    ProvidersNotATable,
    ProviderNotATable,
    AuthNotATable,
}

impl ConfigError {
    /// The message for a `ConfigError`.
    pub open spec fn message_of(self) -> Seq<char> {
        match self {
            ConfigError::ProvidersNotATable => "model_providers 不是 table，无法写入受管 provider"@,
            ConfigError::ProviderNotATable => "model_providers.managed_gateway 不是 table"@,
            ConfigError::AuthNotATable => "model_providers.managed_gateway.auth 不是 table"@,
        }
    }

    /// A message for the reader of a log.
    pub fn message(&self) -> (r: &'static str)
        ensures
            r@ == self.message_of(),
    {
        match self {
            ConfigError::ProvidersNotATable => "model_providers 不是 table，无法写入受管 provider",
            ConfigError::ProviderNotATable => "model_providers.managed_gateway 不是 table",
            ConfigError::AuthNotATable => "model_providers.managed_gateway.auth 不是 table",
        }
    }
}

/// A provider's entries with the managed ones put right, but for those under `auth`. The
/// keys that contradict authentication by command are gone.
pub open spec fn managed_provider(provider: Map<Seq<char>, TomlSlot>) -> Map<Seq<char>, TomlSlot> {
    let named = with_entry(provider, "name"@, TomlEntry::Text("Managed Gateway"@));
    let addressed = with_entry(
        named,
        "base_url"@,
        TomlEntry::Text(managed_gateway::MANAGED_GATEWAY_BASE_URL@),
    );
    with_entry(addressed, "wire_api"@, TomlEntry::Text("responses"@)).remove("env_key"@).remove(
        "experimental_bearer_token"@,
    ).remove("requires_openai_auth"@)
}

/// The entries under `auth` with the managed ones put right.
pub open spec fn managed_auth(auth: Map<Seq<char>, TomlSlot>, command: Seq<char>) -> Map<
    Seq<char>,
    TomlSlot,
> {
    with_entry(
        with_entry(auth, "command"@, TomlEntry::Text(command)),
        "args"@,
        TomlEntry::Texts(seq!["get"@, managed_gateway::MANAGED_GATEWAY_CREDENTIAL_TARGET@]),
    )
}

/// The entries of a configuration with the managed ones put right, or what stands in the
/// way.
pub open spec fn managed_entries(entries: Map<Seq<char>, TomlSlot>, command: Seq<char>) -> Result<
    Map<Seq<char>, TomlSlot>,
    ConfigError,
> {
    let id = managed_gateway::MANAGED_GATEWAY_PROVIDER_ID@;
    let root = with_entry(entries, "model_provider"@, TomlEntry::Text(id));
    match sub_entries(root, "model_providers"@) {
        None => Err(ConfigError::ProvidersNotATable),
        Some((providers_decor, providers)) => match sub_entries(providers, id) {
            None => Err(ConfigError::ProviderNotATable),
            Some((provider_decor, provider)) => match sub_entries(
                managed_provider(provider),
                "auth"@,
            ) {
                None => Err(ConfigError::AuthNotATable),
                Some((auth_decor, auth)) => {
                    let new_auth = TomlEntry::Table {
                        front: auth_decor.0,
                        behind: auth_decor.1,
                        entries: managed_auth(auth, command),
                    };
                    let new_provider = TomlEntry::Table {
                        front: provider_decor.0,
                        behind: provider_decor.1,
                        entries: with_entry(managed_provider(provider), "auth"@, new_auth),
                    };
                    let new_providers = TomlEntry::Table {
                        front: providers_decor.0,
                        behind: providers_decor.1,
                        entries: with_entry(providers, id, new_provider),
                    };
                    Ok(with_entry(root, "model_providers"@, new_providers))
                },
            },
        },
    }
}

/// Puts the managed entries of a document right.
pub fn managed_document(doc: toml_edit::DocumentMut, command: &str) -> (r: Result<
    toml_edit::DocumentMut,
    ConfigError,
>)
    requires
        document_entries(doc) is Some,
    ensures
        match r {
            Ok(updated) => {
                &&& document_entries(updated) is Some
                &&& managed_entries(document_entries(doc)->Some_0, command@) == Ok::<
                    Map<Seq<char>, TomlSlot>,
                    ConfigError,
                >(document_entries(updated)->Some_0)
                &&& document_trailing(updated) == document_trailing(doc)
            },
            Err(error) => managed_entries(document_entries(doc)->Some_0, command@) == Err::<
                Map<Seq<char>, TomlSlot>,
                ConfigError,
            >(error),
        },
{
    let mut doc = doc;
    let root = root_table(&mut doc);
    set_text(root, "model_provider", managed_gateway::MANAGED_GATEWAY_PROVIDER_ID);
    let providers = match sub_table(root, "model_providers") {
        Some(providers) => providers,
        None => {
            return Err(ConfigError::ProvidersNotATable);
        },
    };
    let provider = match sub_table(providers, managed_gateway::MANAGED_GATEWAY_PROVIDER_ID) {
        Some(provider) => provider,
        None => {
            return Err(ConfigError::ProviderNotATable);
        },
    };
    set_text(provider, "name", "Managed Gateway");
    set_text(provider, "base_url", managed_gateway::MANAGED_GATEWAY_BASE_URL);
    set_text(provider, "wire_api", "responses");
    remove_entry(provider, "env_key");
    remove_entry(provider, "experimental_bearer_token");
    remove_entry(provider, "requires_openai_auth");
    let auth = match sub_table(provider, "auth") {
        Some(auth) => auth,
        None => {
            return Err(ConfigError::AuthNotATable);
        },
    };
    set_text(auth, "command", command);
    set_pair(auth, "args", "get", managed_gateway::MANAGED_GATEWAY_CREDENTIAL_TARGET);
    Ok(doc)
}

/// The entries of a configuration file and what stands behind them. A file that is not TOML
/// has none.
pub open spec fn contents_of(contents: Seq<char>) -> (Map<Seq<char>, TomlSlot>, Seq<char>) {
    match parsed_document(contents) {
        Ok(document) => document,
        Err(_) => (Map::empty(), Seq::empty()),
    }
}

/// The entries of a configuration file, of which a file that is not TOML has none.
pub open spec fn entries_or_none(contents: Seq<char>) -> Map<Seq<char>, TomlSlot> {
    contents_of(contents).0
}

/// Whether `text` is the text of a document with these entries, with what is kept round
/// them, and with this at its end.
pub open spec fn written_as(
    entries: Map<Seq<char>, TomlSlot>,
    trailing: Seq<char>,
    text: Seq<char>,
) -> bool {
    exists|doc: toml_edit::DocumentMut|
        #[trigger] document_text(doc) == text && document_entries(doc) == Some(entries)
            && document_trailing(doc) == trailing
}

/// The text of a configuration with the managed entries put right.
pub fn managed_config_text(contents: &str, command: &str) -> (r: Result<String, ConfigError>)
    ensures
        match r {
            Ok(updated) => managed_entries(entries_or_none(contents@), command@) matches Ok(entries)
                && written_as(entries, contents_of(contents@).1, updated@),
            Err(error) => managed_entries(entries_or_none(contents@), command@) == Err::<
                Map<Seq<char>, TomlSlot>,
                ConfigError,
            >(error),
        },
{
    let doc = match parse_document(contents) {
        Ok(doc) => doc,
        Err(_) => new_document(),
    };
    match managed_document(doc, command) {
        Ok(doc) => Ok(document_to_string(&doc)),
        Err(error) => Err(error),
    }
}

/// Where the configuration file stands under the engine's home directory.
pub fn config_file_path(home: &Path) -> (r: PathBuf)
    ensures
        managed_env::names_file("config.toml"@, managed_env::path_buf_text(r)),
        !managed_env::verbatim(managed_env::path_text(home)) ==> managed_env::adjoined(
            managed_env::path_text(home),
            "config.toml"@,
            managed_env::path_buf_text(r),
        ),
{
    proof {
        reveal_strlit("config.toml");
        reveal_strlit(".");
        reveal_strlit("..");
        assert("config.toml"@.len() == 11 && "."@.len() == 1 && ".."@.len() == 2);
    }
    managed_env::path_join(home, "config.toml")
}

/// The extension that replaces the one of the configuration file in the name of its copy.
pub const CONFIG_BACKUP_EXTENSION: &'static str = "toml.managed-gateway-bak";

/// What to write to a configuration file.
#[derive(Debug, Clone)]
pub struct ConfigUpdate {
    /// The new text.
    pub text: String,
    /// Whether to copy the file first. The copy is put back if writing fails.
    pub backup: bool,
}

/// Decides what to write to a configuration file that holds `contents`, or cannot be read,
/// and that exists or not. A file that would change is copied first.
pub fn plan_config_update(contents: Option<&str>, exists: bool, command: &str) -> (r: Result<
    ConfigUpdate,
    ConfigError,
>)
    ensures
        ({
            let before = match contents {
                Some(contents) => contents@,
                None => ""@,
            };
            match r {
                Ok(update) => {
                    &&& managed_entries(entries_or_none(before), command@) matches Ok(entries)
                        && written_as(entries, contents_of(before).1, update.text@)
                    &&& update.backup == (exists && before != update.text@)
                },
                Err(error) => managed_entries(entries_or_none(before), command@) == Err::<
                    Map<Seq<char>, TomlSlot>,
                    ConfigError,
                >(error),
            }
        }),
{
    let before = match contents {
        Some(contents) => contents,
        None => "",
    };
    match managed_config_text(before, command) {
        Ok(updated) => {
            let old_chars = text::chars_of(before);
            let backup = exists && !text::is_text(old_chars.as_slice(), updated.as_str());
            Ok(ConfigUpdate { text: updated, backup })
        },
        Err(error) => Err(error),
    }
}

/// Whether to put the copy back after the file could not be written: only a copy that was
/// made for this update holds what the file held before.
pub fn restore_after_failed_write(update: &ConfigUpdate) -> (r: bool)
    ensures
        r == update.backup,
{
    update.backup
}

/// The key of the pointer to an external model catalog.
pub const CATALOG_POINTER_KEY: &'static str = "model_catalog_json";

/// The external model catalog that entries point to, if they do.
pub open spec fn catalog_pointer_in(entries: Map<Seq<char>, TomlSlot>) -> Option<Seq<char>> {
    if entries.contains_key(CATALOG_POINTER_KEY@) {
        match entries[CATALOG_POINTER_KEY@].entry {
            TomlEntry::Text(path) => Some(path),
            _ => None,
        }
    } else {
        None
    }
}

/// The external model catalog that a configuration points to, if it is TOML and does.
pub fn catalog_pointer(contents: &str) -> (r: Option<String>)
    ensures
        match r {
            Some(path) => catalog_pointer_in(entries_or_none(contents@)) == Some(path@),
            None => catalog_pointer_in(entries_or_none(contents@)) is None,
        },
{
    match parse_document(contents) {
        Ok(doc) => {
            let mut doc = doc;
            let root = root_table(&mut doc);
            get_text(root, CATALOG_POINTER_KEY)
        },
        Err(_) => None,
    }
}

/// The text of a configuration without the pointer to an external model catalog, or the
/// message for a configuration that is not TOML.
pub fn without_catalog_pointer(contents: &str) -> (r: Result<String, String>)
    ensures
        match r {
            Ok(updated) => parsed_document(contents@) matches Ok(document) && written_as(
                document.0.remove(CATALOG_POINTER_KEY@),
                document.1,
                updated@,
            ),
            Err(message) => parsed_document(contents@) == Err::<
                (Map<Seq<char>, TomlSlot>, Seq<char>),
                Seq<char>,
            >(message@),
        },
{
    match parse_document(contents) {
        Ok(doc) => {
            let mut doc = doc;
            let root = root_table(&mut doc);
            remove_entry(root, CATALOG_POINTER_KEY);
            Ok(document_to_string(&doc))
        },
        Err(message) => Err(message),
    }
}

/// The name of the copy of a configuration that is made at a time, given in milliseconds.
pub open spec fn catalog_backup_name_of(stamp: u128) -> Seq<char> {
    "config-"@ + number::decimal(stamp as nat) + ".toml"@
}

/// The name of the copy of a configuration that is made at a time, given in milliseconds.
pub fn catalog_backup_name(stamp: u128) -> (r: String)
    ensures
        r@ == catalog_backup_name_of(stamp),
{
    let mut out: Vec<char> = Vec::new();
    text::push_text(&mut out, "config-");
    number::push_decimal(&mut out, stamp);
    text::push_text(&mut out, ".toml");
    assert(out@ =~= catalog_backup_name_of(stamp));
    text::string_of(out.as_slice())
}

/// The keys that the managed provider sets, removes or looks into are all different.
proof fn lemma_keys_differ()
    ensures
        "model_provider"@ != "model_providers"@,
        "model_provider"@ != CATALOG_POINTER_KEY@,
        "model_providers"@ != CATALOG_POINTER_KEY@,
        "command"@ != "args"@,
        "name"@ != "base_url"@,
        "name"@ != "wire_api"@,
        "name"@ != "env_key"@,
        "name"@ != "experimental_bearer_token"@,
        "name"@ != "requires_openai_auth"@,
        "name"@ != "auth"@,
        "base_url"@ != "wire_api"@,
        "base_url"@ != "env_key"@,
        "base_url"@ != "experimental_bearer_token"@,
        "base_url"@ != "requires_openai_auth"@,
        "base_url"@ != "auth"@,
        "wire_api"@ != "env_key"@,
        "wire_api"@ != "experimental_bearer_token"@,
        "wire_api"@ != "requires_openai_auth"@,
        "wire_api"@ != "auth"@,
        "env_key"@ != "auth"@,
        "experimental_bearer_token"@ != "auth"@,
        "requires_openai_auth"@ != "auth"@,
{
    reveal_strlit("model_provider");
    reveal_strlit("model_providers");
    reveal_strlit("model_catalog_json");
    reveal_strlit("command");
    reveal_strlit("args");
    reveal_strlit("name");
    reveal_strlit("base_url");
    reveal_strlit("wire_api");
    reveal_strlit("env_key");
    reveal_strlit("experimental_bearer_token");
    reveal_strlit("requires_openai_auth");
    reveal_strlit("auth");
    assert("model_provider"@.len() == 14 && "model_providers"@.len() == 15
        && CATALOG_POINTER_KEY@.len() == 18);
    assert("command"@.len() == 7 && "args"@.len() == 4);
    assert("name"@[0] == 'n' && "base_url"@[0] == 'b' && "wire_api"@[0] == 'w' && "env_key"@[0]
        == 'e' && "experimental_bearer_token"@[0] == 'e' && "requires_openai_auth"@[0] == 'r'
        && "auth"@[0] == 'a');
}

/// Whether `key` is one of those that the managed provider sets, removes or looks into.
pub open spec fn managed_key(key: Seq<char>) -> bool {
    ||| key == "name"@
    ||| key == "base_url"@
    ||| key == "wire_api"@
    ||| key == "env_key"@
    ||| key == "experimental_bearer_token"@
    ||| key == "requires_openai_auth"@
    ||| key == "auth"@
}

/// Whether `entry` stands under a key.
pub open spec fn holds(
    entries: Map<Seq<char>, TomlSlot>,
    key: Seq<char>,
    entry: TomlEntry,
) -> bool {
    entries.contains_key(key) && entries[key].entry == entry
}

/// Whether entries make the engine use the managed provider, with its address and with
/// authentication by `command`, and with nothing that contradicts that.
pub open spec fn uses_managed_provider(
    entries: Map<Seq<char>, TomlSlot>,
    command: Seq<char>,
) -> bool {
    let id = managed_gateway::MANAGED_GATEWAY_PROVIDER_ID@;
    &&& holds(entries, "model_provider"@, TomlEntry::Text(id))
    &&& entries.contains_key("model_providers"@)
    &&& entries["model_providers"@].entry matches TomlEntry::Table { entries: providers, .. }
    &&& providers.contains_key(id)
    &&& providers[id].entry matches TomlEntry::Table { entries: provider, .. }
    &&& holds(provider, "name"@, TomlEntry::Text("Managed Gateway"@))
    &&& holds(
        provider,
        "base_url"@,
        TomlEntry::Text(managed_gateway::MANAGED_GATEWAY_BASE_URL@),
    )
    &&& holds(provider, "wire_api"@, TomlEntry::Text("responses"@))
    &&& !provider.contains_key("env_key"@)
    &&& !provider.contains_key("experimental_bearer_token"@)
    &&& !provider.contains_key("requires_openai_auth"@)
    &&& provider.contains_key("auth"@)
    &&& provider["auth"@].entry matches TomlEntry::Table { entries: auth, .. }
    &&& holds(auth, "command"@, TomlEntry::Text(command))
    &&& holds(
        auth,
        "args"@,
        TomlEntry::Texts(seq!["get"@, managed_gateway::MANAGED_GATEWAY_CREDENTIAL_TARGET@]),
    )
}

/// Whatever a configuration held, it uses the managed provider once its managed entries
/// are put right.
pub proof fn law_managed_provider_is_used(
    entries: Map<Seq<char>, TomlSlot>,
    command: Seq<char>,
)
    ensures
        managed_entries(entries, command) matches Ok(updated) ==> uses_managed_provider(
            updated,
            command,
        ),
{
    lemma_keys_differ();
}

/// Whether what is kept in front of each key that stays is the same.
pub open spec fn fronts_stay(
    before: Map<Seq<char>, TomlSlot>,
    after: Map<Seq<char>, TomlSlot>,
) -> bool {
    forall|key: Seq<char>|
        before.contains_key(key) && #[trigger] after.contains_key(key) ==> after[key].front
            == before[key].front
}

/// Putting the managed entries right leaves every other entry as it was, with the comments
/// round it and its notation: of the root, of the other providers, of the managed provider
/// and of its authentication. The comments in front of a managed key and round the header
/// of a managed table that was there stay too.
pub proof fn law_other_entries_stay(entries: Map<Seq<char>, TomlSlot>, command: Seq<char>)
    ensures
        managed_entries(entries, command) matches Ok(updated) ==> {
            let id = managed_gateway::MANAGED_GATEWAY_PROVIDER_ID@;
            let (providers_decor, providers) = sub_entries(entries, "model_providers"@)->Some_0;
            let (new_providers_decor, new_providers) = sub_entries(
                updated,
                "model_providers"@,
            )->Some_0;
            let (provider_decor, provider) = sub_entries(providers, id)->Some_0;
            let (new_provider_decor, new_provider) = sub_entries(new_providers, id)->Some_0;
            let (auth_decor, auth) = sub_entries(provider, "auth"@)->Some_0;
            let (new_auth_decor, new_auth) = sub_entries(new_provider, "auth"@)->Some_0;
            &&& updated.remove("model_provider"@).remove("model_providers"@) == entries.remove(
                "model_provider"@,
            ).remove("model_providers"@)
            &&& new_providers.remove(id) == providers.remove(id)
            &&& forall|key: Seq<char>|
                !managed_key(key) ==> {
                    &&& #[trigger] new_provider.contains_key(key) == provider.contains_key(key)
                    &&& provider.contains_key(key) ==> new_provider[key] == provider[key]
                }
            &&& new_auth.remove("command"@).remove("args"@) == auth.remove("command"@).remove(
                "args"@,
            )
            &&& fronts_stay(entries, updated)
            &&& fronts_stay(providers, new_providers)
            &&& fronts_stay(provider, new_provider)
            &&& fronts_stay(auth, new_auth)
            &&& new_providers_decor == providers_decor
            &&& new_provider_decor == provider_decor
            &&& new_auth_decor == auth_decor
        },
{
    lemma_keys_differ();
    if let Ok(updated) = managed_entries(entries, command) {
        let id = managed_gateway::MANAGED_GATEWAY_PROVIDER_ID@;
        let providers = sub_entries(entries, "model_providers"@)->Some_0.1;
        let new_providers = sub_entries(updated, "model_providers"@)->Some_0.1;
        let provider = sub_entries(providers, id)->Some_0.1;
        let new_provider = sub_entries(new_providers, id)->Some_0.1;
        let auth = sub_entries(provider, "auth"@)->Some_0.1;
        let new_auth = sub_entries(new_provider, "auth"@)->Some_0.1;
        assert(updated.remove("model_provider"@).remove("model_providers"@) =~= entries.remove(
            "model_provider"@,
        ).remove("model_providers"@));
        assert(new_providers.remove(id) =~= providers.remove(id));
        assert(new_auth.remove("command"@).remove("args"@) =~= auth.remove("command"@).remove(
            "args"@,
        ));
    }
}

/// Entries that were put right can be put right again, and only the last time counts: the
/// outcome is the same as if it had been the only one.
pub proof fn law_last_update_counts(
    entries: Map<Seq<char>, TomlSlot>,
    first: Seq<char>,
    second: Seq<char>,
)
    ensures
        managed_entries(entries, first) matches Ok(updated) ==> managed_entries(updated, second)
            == managed_entries(entries, second) && managed_entries(updated, first) == managed_entries(
            entries,
            first,
        ),
{
    if managed_entries(entries, first) is Ok {
        lemma_last_update(entries, first, second);
        lemma_last_update(entries, first, first);
    }
}

/// Putting entries right a second time gives what it would have given the first time.
proof fn lemma_last_update(
    entries: Map<Seq<char>, TomlSlot>,
    first: Seq<char>,
    second: Seq<char>,
)
    requires
        managed_entries(entries, first) is Ok,
    ensures
        managed_entries(managed_entries(entries, first)->Ok_0, second) == managed_entries(
            entries,
            second,
        ),
{
    lemma_keys_differ();
    let id = managed_gateway::MANAGED_GATEWAY_PROVIDER_ID@;
    let updated = managed_entries(entries, first)->Ok_0;
    let root = with_entry(entries, "model_provider"@, TomlEntry::Text(id));
    let (providers_decor, providers) = sub_entries(root, "model_providers"@)->Some_0;
    let (provider_decor, provider) = sub_entries(providers, id)->Some_0;
    let (auth_decor, auth) = sub_entries(managed_provider(provider), "auth"@)->Some_0;
    let new_auth = managed_auth(auth, first);
    let new_provider = with_entry(
        managed_provider(provider),
        "auth"@,
        TomlEntry::Table { front: auth_decor.0, behind: auth_decor.1, entries: new_auth },
    );
    let new_providers = with_entry(
        providers,
        id,
        TomlEntry::Table {
            front: provider_decor.0,
            behind: provider_decor.1,
            entries: new_provider,
        },
    );
    let new_root = with_entry(updated, "model_provider"@, TomlEntry::Text(id));
    assert(sub_entries(new_root, "model_providers"@) == Some((providers_decor, new_providers)));
    assert(sub_entries(new_providers, id) == Some((provider_decor, new_provider)));
    assert(managed_provider(new_provider) =~= new_provider);
    assert(sub_entries(new_provider, "auth"@) == Some((auth_decor, new_auth)));
    assert(managed_auth(new_auth, second) =~= managed_auth(auth, second));
    let last_auth = TomlEntry::Table {
        front: auth_decor.0,
        behind: auth_decor.1,
        entries: managed_auth(auth, second),
    };
    let last_provider = with_entry(managed_provider(provider), "auth"@, last_auth);
    assert(with_entry(new_provider, "auth"@, last_auth) =~= last_provider);
    let last_entry = TomlEntry::Table {
        front: provider_decor.0,
        behind: provider_decor.1,
        entries: last_provider,
    };
    let last_providers = with_entry(providers, id, last_entry);
    assert(with_entry(new_providers, id, last_entry) =~= last_providers);
    let root_entry = TomlEntry::Table {
        front: providers_decor.0,
        behind: providers_decor.1,
        entries: last_providers,
    };
    assert(with_entry(new_root, "model_providers"@, root_entry) =~= with_entry(
        root,
        "model_providers"@,
        root_entry,
    ));
}

/// Whether two values read the same up to comments and notation, tables down to a depth.
/// What else there is counts as the same kind of thing.
pub open spec fn reads_alike(depth: nat, a: TomlEntry, b: TomlEntry) -> bool
    decreases depth, 0nat,
{
    match (a, b) {
        (TomlEntry::Text(x), TomlEntry::Text(y)) => x == y,
        (TomlEntry::Texts(x), TomlEntry::Texts(y)) => x == y,
        (
            TomlEntry::Table { entries: x, .. },
            TomlEntry::Table { entries: y, .. },
        ) => depth > 0 ==> read_alike((depth - 1) as nat, x, y),
        (TomlEntry::Other(_), TomlEntry::Other(_)) => true,
        _ => false,
    }
}

/// Whether two tables hold the same keys and under each what reads the same up to comments
/// and notation, down to a depth.
pub open spec fn read_alike(
    depth: nat,
    a: Map<Seq<char>, TomlSlot>,
    b: Map<Seq<char>, TomlSlot>,
) -> bool
    decreases depth, 1nat,
{
    &&& forall|key: Seq<char>| #[trigger] a.contains_key(key) == b.contains_key(key)
    &&& forall|key: Seq<char>|
        #[trigger] a.contains_key(key) ==> reads_alike(depth, a[key].entry, b[key].entry)
}

/// Entries read like themselves.
proof fn lemma_read_alike_self(depth: nat, a: Map<Seq<char>, TomlSlot>)
    ensures
        read_alike(depth, a, a),
    decreases depth,
{
    assert forall|key: Seq<char>| #[trigger] a.contains_key(key) implies reads_alike(
        depth,
        a[key].entry,
        a[key].entry,
    ) by {
        if let TomlEntry::Table { entries, .. } = a[key].entry {
            if depth > 0 {
                lemma_read_alike_self((depth - 1) as nat, entries);
            }
        }
    }
}

/// Setting a key that is there to what reads the same leaves entries that read the same.
proof fn lemma_with_entry_reads_alike(
    depth: nat,
    entries: Map<Seq<char>, TomlSlot>,
    key: Seq<char>,
    entry: TomlEntry,
)
    requires
        entries.contains_key(key),
        reads_alike(depth, entry, entries[key].entry),
    ensures
        read_alike(depth, with_entry(entries, key, entry), entries),
{
    lemma_read_alike_self(depth, entries);
    let after = with_entry(entries, key, entry);
    assert forall|k: Seq<char>| #[trigger] after.contains_key(k) implies reads_alike(
        depth,
        after[k].entry,
        entries[k].entry,
    ) by {
        if k != key {
            assert(entries.contains_key(k));
        }
    }
}

/// What reads like a second table, which reads like a third, reads like the third.
proof fn lemma_read_alike_transitive(
    depth: nat,
    a: Map<Seq<char>, TomlSlot>,
    b: Map<Seq<char>, TomlSlot>,
    c: Map<Seq<char>, TomlSlot>,
)
    requires
        read_alike(depth, a, b),
        read_alike(depth, b, c),
    ensures
        read_alike(depth, a, c),
    decreases depth,
{
    assert forall|key: Seq<char>| #[trigger] a.contains_key(key) == c.contains_key(key) by {
        assert(a.contains_key(key) == b.contains_key(key));
        assert(b.contains_key(key) == c.contains_key(key));
    }
    assert forall|key: Seq<char>| #[trigger] a.contains_key(key) implies reads_alike(
        depth,
        a[key].entry,
        c[key].entry,
    ) by {
        assert(b.contains_key(key));
        if depth > 0 {
            if let TomlEntry::Table { entries: x, .. } = a[key].entry {
                if let TomlEntry::Table { entries: y, .. } = b[key].entry {
                    if let TomlEntry::Table { entries: z, .. } = c[key].entry {
                        lemma_read_alike_transitive((depth - 1) as nat, x, y, z);
                    }
                }
            }
        }
    }
}

/// A configuration that uses the managed provider can be put right, and reads the same
/// afterwards up to comments and notation.
pub proof fn law_managed_configuration_stays(
    depth: nat,
    entries: Map<Seq<char>, TomlSlot>,
    command: Seq<char>,
)
    requires
        uses_managed_provider(entries, command),
    ensures
        managed_entries(entries, command) matches Ok(updated) && read_alike(
            depth,
            updated,
            entries,
        ),
{
    lemma_keys_differ();
    let id = managed_gateway::MANAGED_GATEWAY_PROVIDER_ID@;
    let root = with_entry(entries, "model_provider"@, TomlEntry::Text(id));
    let (providers_decor, providers) = sub_entries(root, "model_providers"@)->Some_0;
    let (provider_decor, provider) = sub_entries(providers, id)->Some_0;
    let (auth_decor, auth) = sub_entries(managed_provider(provider), "auth"@)->Some_0;
    let d1: nat = if depth > 0 {
        (depth - 1) as nat
    } else {
        0
    };
    let d2: nat = if d1 > 0 {
        (d1 - 1) as nat
    } else {
        0
    };
    let d3: nat = if d2 > 0 {
        (d2 - 1) as nat
    } else {
        0
    };
    let commanded = with_entry(auth, "command"@, TomlEntry::Text(command));
    let args = TomlEntry::Texts(seq!["get"@, managed_gateway::MANAGED_GATEWAY_CREDENTIAL_TARGET@]);
    lemma_with_entry_reads_alike(d3, auth, "command"@, TomlEntry::Text(command));
    lemma_with_entry_reads_alike(d3, commanded, "args"@, args);
    lemma_read_alike_transitive(d3, managed_auth(auth, command), commanded, auth);

    let name = TomlEntry::Text("Managed Gateway"@);
    let url = TomlEntry::Text(managed_gateway::MANAGED_GATEWAY_BASE_URL@);
    let api = TomlEntry::Text("responses"@);
    let named = with_entry(provider, "name"@, name);
    let addressed = with_entry(named, "base_url"@, url);
    let complete = with_entry(addressed, "wire_api"@, api);
    lemma_with_entry_reads_alike(d2, provider, "name"@, name);
    lemma_with_entry_reads_alike(d2, named, "base_url"@, url);
    lemma_with_entry_reads_alike(d2, addressed, "wire_api"@, api);
    lemma_read_alike_transitive(d2, addressed, named, provider);
    lemma_read_alike_transitive(d2, complete, addressed, provider);
    assert(managed_provider(provider) =~= complete);
    let new_auth = TomlEntry::Table {
        front: auth_decor.0,
        behind: auth_decor.1,
        entries: managed_auth(auth, command),
    };
    lemma_with_entry_reads_alike(d2, complete, "auth"@, new_auth);
    let provider_entries = with_entry(complete, "auth"@, new_auth);
    lemma_read_alike_transitive(d2, provider_entries, complete, provider);

    let new_provider = TomlEntry::Table {
        front: provider_decor.0,
        behind: provider_decor.1,
        entries: provider_entries,
    };
    lemma_with_entry_reads_alike(d1, providers, id, new_provider);
    let new_providers = TomlEntry::Table {
        front: providers_decor.0,
        behind: providers_decor.1,
        entries: with_entry(providers, id, new_provider),
    };
    lemma_with_entry_reads_alike(depth, entries, "model_provider"@, TomlEntry::Text(id));
    lemma_with_entry_reads_alike(depth, root, "model_providers"@, new_providers);
    lemma_read_alike_transitive(
        depth,
        with_entry(root, "model_providers"@, new_providers),
        root,
        entries,
    );
}

/// Where the text that an update wrote is read back with the same entries, up to comments
/// and notation, the next update succeeds and changes no entry, up to comments and notation.
pub proof fn law_second_update_changes_no_entry(
    depth: nat,
    contents: Seq<char>,
    written: Seq<char>,
    command: Seq<char>,
)
    requires
        managed_entries(entries_or_none(contents), command) is Ok,
        read_alike(
            4,
            managed_entries(entries_or_none(contents), command)->Ok_0,
            entries_or_none(written),
        ),
    ensures
        managed_entries(entries_or_none(written), command) matches Ok(updated) && read_alike(
            depth,
            updated,
            entries_or_none(written),
        ),
{
    let updated = managed_entries(entries_or_none(contents), command)->Ok_0;
    law_managed_provider_is_used(entries_or_none(contents), command);
    lemma_alike_uses_managed_provider(updated, entries_or_none(written), command);
    law_managed_configuration_stays(depth, entries_or_none(written), command);
}

/// What reads like a configuration that uses the managed provider uses it too.
proof fn lemma_alike_uses_managed_provider(
    a: Map<Seq<char>, TomlSlot>,
    b: Map<Seq<char>, TomlSlot>,
    command: Seq<char>,
)
    requires
        uses_managed_provider(a, command),
        read_alike(4, a, b),
    ensures
        uses_managed_provider(b, command),
{
    reveal_with_fuel(read_alike, 5);
    let id = managed_gateway::MANAGED_GATEWAY_PROVIDER_ID@;
    assert(a.contains_key("model_provider"@) && a.contains_key("model_providers"@));
    let providers = a["model_providers"@].entry->Table_entries;
    let other_providers = b["model_providers"@].entry->Table_entries;
    assert(read_alike(3, providers, other_providers));
    let provider = providers[id].entry->Table_entries;
    let other_provider = other_providers[id].entry->Table_entries;
    assert(providers.contains_key(id));
    assert(read_alike(2, provider, other_provider));
    assert(provider.contains_key("name"@) && provider.contains_key("base_url"@)
        && provider.contains_key("wire_api"@) && provider.contains_key("auth"@));
    assert(!provider.contains_key("env_key"@) && !provider.contains_key(
        "experimental_bearer_token"@,
    ) && !provider.contains_key("requires_openai_auth"@));
    let auth = provider["auth"@].entry->Table_entries;
    let other_auth = other_provider["auth"@].entry->Table_entries;
    assert(read_alike(1, auth, other_auth));
    assert(auth.contains_key("command"@) && auth.contains_key("args"@));
}

/// A configuration that is empty, or not TOML, can always be put right.
pub proof fn law_empty_configuration_is_accepted(contents: Seq<char>, command: Seq<char>)
    requires
        parsed_document(contents) is Err,
    ensures
        managed_entries(entries_or_none(contents), command) is Ok,
{
    lemma_keys_differ();
}

/// Putting the managed entries right does not touch the pointer to an external catalog,
/// and removing that pointer touches nothing else and leaves none.
pub proof fn law_catalog_pointer_is_apart(
    entries: Map<Seq<char>, TomlSlot>,
    command: Seq<char>,
)
    ensures
        managed_entries(entries, command) matches Ok(updated) ==> catalog_pointer_in(updated)
            == catalog_pointer_in(entries),
        catalog_pointer_in(entries.remove(CATALOG_POINTER_KEY@)) is None,
        forall|key: Seq<char>|
            key != CATALOG_POINTER_KEY@ ==> {
                &&& #[trigger] entries.remove(CATALOG_POINTER_KEY@).contains_key(key)
                    == entries.contains_key(key)
                &&& entries.contains_key(key) ==> entries.remove(CATALOG_POINTER_KEY@)[key]
                    == entries[key]
            },
{
    lemma_keys_differ();
}

/// An update starts from just what the file holds: for every text that is TOML, the entries
/// and the end that parsing gives, and only for one that is not, from nothing. So each entry
/// of the file that is not managed is among those that the new text is written from, with
/// its comments and its notation.
pub proof fn law_update_starts_from_what_the_file_holds(
    contents: Seq<char>,
    command: Seq<char>,
    key: Seq<char>,
)
    ensures
        parsed_document(contents) matches Ok((entries, trailing)) ==> {
            &&& entries_or_none(contents) == entries
            &&& contents_of(contents) == (entries, trailing)
            &&& key != "model_provider"@ && key != "model_providers"@ ==> (managed_entries(
                entries_or_none(contents),
                command,
            ) matches Ok(updated) ==> updated.contains_key(key) == entries.contains_key(key) && (
            entries.contains_key(key) ==> updated[key] == entries[key]))
        },
        parsed_document(contents) is Err ==> {
            &&& entries_or_none(contents) == Map::<Seq<char>, TomlSlot>::empty()
            &&& contents_of(contents).1 == Seq::<char>::empty()
        },
{
}

/// A text counts as written for entries and an end only if there is a document that holds
/// just these and is written as that text.
pub proof fn law_text_is_that_of_a_document(
    entries: Map<Seq<char>, TomlSlot>,
    trailing: Seq<char>,
    text: Seq<char>,
)
    ensures
        written_as(entries, trailing, text) ==> exists|doc: toml_edit::DocumentMut|
            {
                &&& #[trigger] document_text(doc) == text
                &&& document_entries(doc) == Some(entries)
                &&& document_trailing(doc) == trailing
            },
{
}

/// An update is refused exactly where something that is no table stands in the place of the
/// providers, of the managed one among them, or of its authentication.
pub proof fn law_only_what_is_no_table_stands_in_the_way(
    entries: Map<Seq<char>, TomlSlot>,
    command: Seq<char>,
)
    ensures
        ({
            let outcome = managed_entries(entries, command);
            let providers = entries["model_providers"@].entry;
            let provider = providers->Table_entries["managed_gateway"@].entry;
            let auth = provider->Table_entries["auth"@].entry;
            let has_providers = entries.contains_key("model_providers"@);
            let has_provider = has_providers && providers is Table
                && providers->Table_entries.contains_key("managed_gateway"@);
            let has_auth = has_provider && provider is Table
                && provider->Table_entries.contains_key("auth"@);
            &&& has_providers && providers !is Table ==> outcome == Err::<
                Map<Seq<char>, TomlSlot>,
                ConfigError,
            >(ConfigError::ProvidersNotATable)
            &&& has_provider && provider !is Table ==> outcome == Err::<
                Map<Seq<char>, TomlSlot>,
                ConfigError,
            >(ConfigError::ProviderNotATable)
            &&& has_auth && auth !is Table ==> outcome == Err::<
                Map<Seq<char>, TomlSlot>,
                ConfigError,
            >(ConfigError::AuthNotATable)
            &&& (has_providers ==> providers is Table) && (has_provider ==> provider is Table) && (
            has_auth ==> auth is Table) ==> outcome is Ok
        }),
{
    lemma_keys_differ();
}

/// An update sets these entries to these values, written in the usual way, removes these, and
/// changes no other, at any level.
pub proof fn law_update_sets_these_entries_alone(
    entries: Map<Seq<char>, TomlSlot>,
    command: Seq<char>,
    key: Seq<char>,
)
    ensures
        managed_entries(entries, command) matches Ok(updated) ==> {
            let old_providers = if entries.contains_key("model_providers"@) {
                entries["model_providers"@].entry->Table_entries
            } else {
                Map::empty()
            };
            let old_provider = if old_providers.contains_key("managed_gateway"@) {
                old_providers["managed_gateway"@].entry->Table_entries
            } else {
                Map::empty()
            };
            let old_auth = if old_provider.contains_key("auth"@) {
                old_provider["auth"@].entry->Table_entries
            } else {
                Map::empty()
            };
            let providers = updated["model_providers"@].entry->Table_entries;
            let provider = providers["managed_gateway"@].entry->Table_entries;
            let auth = provider["auth"@].entry->Table_entries;
            &&& updated.contains_key("model_provider"@)
            &&& updated["model_provider"@].entry == TomlEntry::Text("managed_gateway"@)
            &&& updated.contains_key("model_providers"@)
            &&& updated["model_providers"@].entry is Table
            &&& providers.contains_key("managed_gateway"@)
            &&& providers["managed_gateway"@].entry is Table
            &&& provider.contains_key("name"@)
            &&& provider["name"@].entry == TomlEntry::Text("Managed Gateway"@)
            &&& provider.contains_key("base_url"@)
            &&& provider["base_url"@].entry == TomlEntry::Text("http://10.20.30.61:8080"@)
            &&& provider.contains_key("wire_api"@)
            &&& provider["wire_api"@].entry == TomlEntry::Text("responses"@)
            &&& !provider.contains_key("env_key"@)
            &&& !provider.contains_key("experimental_bearer_token"@)
            &&& !provider.contains_key("requires_openai_auth"@)
            &&& provider.contains_key("auth"@)
            &&& provider["auth"@].entry is Table
            &&& auth.contains_key("command"@)
            &&& auth["command"@].entry == TomlEntry::Text(command)
            &&& auth.contains_key("args"@)
            &&& auth["args"@].entry == TomlEntry::Texts(seq!["get"@, "managed-gateway"@])
            &&& key != "model_provider"@ && key != "model_providers"@ ==> updated.contains_key(key)
                == entries.contains_key(key) && (entries.contains_key(key) ==> updated[key]
                == entries[key])
            &&& key != "managed_gateway"@ ==> providers.contains_key(key)
                == old_providers.contains_key(key) && (old_providers.contains_key(key)
                ==> providers[key] == old_providers[key])
            &&& key != "name"@ && key != "base_url"@ && key != "wire_api"@ && key != "env_key"@
                && key != "experimental_bearer_token"@ && key != "requires_openai_auth"@ && key
                != "auth"@ ==> provider.contains_key(key) == old_provider.contains_key(key) && (
            old_provider.contains_key(key) ==> provider[key] == old_provider[key])
            &&& key != "command"@ && key != "args"@ ==> auth.contains_key(key)
                == old_auth.contains_key(key) && (old_auth.contains_key(key) ==> auth[key]
                == old_auth[key])
            &&& key == "model_provider"@ ==> updated[key].notation == (Notation {
                before: None,
                own: None,
                behind: None,
            })
            &&& key == "name"@ || key == "base_url"@ || key == "wire_api"@
                ==> provider[key].notation == (Notation { before: None, own: None, behind: None })
            &&& key == "command"@ || key == "args"@ ==> auth[key].notation == (Notation {
                before: None,
                own: None,
                behind: None,
            })
            &&& entries.contains_key(key) && updated.contains_key(key) ==> updated[key].front
                == entries[key].front
            &&& old_provider.contains_key(key) && provider.contains_key(key)
                ==> provider[key].front == old_provider[key].front
            &&& old_auth.contains_key(key) && auth.contains_key(key) ==> auth[key].front
                == old_auth[key].front
        },
{
    lemma_keys_differ();
}

/// The pointer to an external catalog is the string under its key at the root, and nothing
/// else is one.
pub proof fn law_pointer_is_a_string_under_its_key(entries: Map<Seq<char>, TomlSlot>)
    ensures
        entries.contains_key("model_catalog_json"@) && entries["model_catalog_json"@].entry is Text
            ==> catalog_pointer_in(entries) == Some(entries["model_catalog_json"@].entry->Text_0),
        !(entries.contains_key("model_catalog_json"@) && entries["model_catalog_json"@].entry
            is Text) ==> catalog_pointer_in(entries) is None,
{
}

/// The copy of a configuration is named after the time in milliseconds, and copies that are
/// made at different times have different names.
pub proof fn law_copies_have_names_of_their_own(first: u128, second: u128)
    ensures
        catalog_backup_name_of(first) == "config-"@ + number::decimal(first as nat) + ".toml"@,
        catalog_backup_name_of(first) == catalog_backup_name_of(second) ==> first == second,
{
    reveal_strlit("config-");
    reveal_strlit(".toml");
    number::lemma_decimal(first as nat);
    number::lemma_decimal(second as nat);
    let a = catalog_backup_name_of(first);
    let b = catalog_backup_name_of(second);
    if a == b {
        assert(a.subrange(7, a.len() - 5) =~= number::decimal(first as nat));
        assert(b.subrange(7, b.len() - 5) =~= number::decimal(second as nat));
    }
}

/// What an error says: where something stands that is no table.
pub proof fn law_errors_name_the_place()
    ensures
        ConfigError::ProvidersNotATable.message_of()
            == "model_providers 不是 table，无法写入受管 provider"@,
        ConfigError::ProviderNotATable.message_of()
            == "model_providers.managed_gateway 不是 table"@,
        ConfigError::AuthNotATable.message_of()
            == "model_providers.managed_gateway.auth 不是 table"@,
{
}

} // verus!
