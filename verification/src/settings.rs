//! Repository settings: what the built-in defaults, a configuration text and
//! the environment together say about a repository.

use crate::error::Error;
use config::{Config, ConfigError, Environment, File, FileFormat};
use vstd::prelude::*;

verus! {

/// The loaded form of a settings source in the `config` crate: a collection
/// of options by key, which is asked option by option.
#[verifier::external_type_specification]
#[verifier::external_body]
pub struct ExConfig(config::Config);

/// What a settings source says about one option.
#[derive(Debug)]
pub enum Lookup<T> {
    /// The source does not mention the option.
    Absent,
    /// The source gives the option this value.
    Found(T),
    /// The source gives the option a value of the wrong type.
    Invalid,
}

/// Whether the `config` crate loads a text as TOML: whether its build of that
/// one source succeeds.
pub uninterp spec fn toml_loads(text: Seq<char>) -> bool;

/// Loads a TOML text with the `config` crate (`Config::builder`, `add_source`
/// of `File::from_str`, `build`). `None` stands for an error of the build.
/// Claimed without proof: whether the build fails depends on the text alone
/// (the text is parsed before anything is merged). Nothing is claimed of what
/// the loaded source holds.
#[verifier::external_body]
fn load_text(text: &str) -> (source: Option<Config>)
    ensures
        source is Some <==> toml_loads(text@),
{
    Config::builder().add_source(File::from_str(text, FileFormat::Toml)).build().ok()
}

/// Loads environment variables, given as pairs of name and value, with the
/// `config` crate (`Config::builder`, `add_source` of an `Environment` with
/// the given prefix over the given variables, `build`). `None` stands for an
/// error of the build.
#[verifier::external_body]
fn load_env(prefix: &str, vars: &Vec<(String, String)>) -> (source: Option<Config>) {
    let map = vars.iter().cloned().collect();
    Config::builder().add_source(Environment::with_prefix(prefix).source(Some(map))).build().ok()
}

/// What a loaded source holds under each key when it is asked for an integer
/// with `Config::get_int`: no entry where the crate reports the key as not
/// found, the integer where it gives one, and `None` where it reports any
/// other error.
pub uninterp spec fn config_integers(source: Config) -> Map<Seq<char>, Option<i64>>;

/// What a loaded source holds under each key when it is asked for a boolean
/// with `Config::get_bool`: no entry where the crate reports the key as not
/// found, the boolean where it gives one, and `None` where it reports any
/// other error.
pub uninterp spec fn config_booleans(source: Config) -> Map<Seq<char>, Option<bool>>;

/// Asks a loaded source for an integer option with `Config::get_int`. The
/// crate's `NotFound` error becomes `Absent`, any other error `Invalid`.
/// Claimed without proof: the answer depends on what the source holds and on
/// the key alone.
#[verifier::external_body]
fn lookup_int(source: &Config, key: &str) -> (found: Lookup<i64>)
    ensures
        match found {
            Lookup::Absent => !config_integers(*source).dom().contains(key@),
            Lookup::Found(value) => config_integers(*source).dom().contains(key@)
                && config_integers(*source)[key@] == Some(value),
            Lookup::Invalid => config_integers(*source).dom().contains(key@) && config_integers(
                *source,
            )[key@] is None,
        },
{
    match source.get_int(key) {
        Ok(value) => Lookup::Found(value),
        Err(ConfigError::NotFound(_)) => Lookup::Absent,
        Err(_) => Lookup::Invalid,
    }
}

/// Asks a loaded source for a boolean option with `Config::get_bool`. The
/// crate's `NotFound` error becomes `Absent`, any other error `Invalid`.
/// Claimed without proof: the answer depends on what the source holds and on
/// the key alone.
#[verifier::external_body]
fn lookup_bool(source: &Config, key: &str) -> (found: Lookup<bool>)
    ensures
        match found {
            Lookup::Absent => !config_booleans(*source).dom().contains(key@),
            Lookup::Found(value) => config_booleans(*source).dom().contains(key@)
                && config_booleans(*source)[key@] == Some(value),
            Lookup::Invalid => config_booleans(*source).dom().contains(key@) && config_booleans(
                *source,
            )[key@] is None,
        },
{
    match source.get_bool(key) {
        Ok(value) => Lookup::Found(value),
        Err(ConfigError::NotFound(_)) => Lookup::Absent,
        Err(_) => Lookup::Invalid,
    }
}

/// The TOML text that the `toml` crate writes for a document of one table
/// with one integer and two boolean entries, or nothing where its serializer
/// reports an error.
pub uninterp spec fn toml_document(
    table: Seq<char>,
    int_key: Seq<char>,
    int_value: int,
    first_key: Seq<char>,
    first: bool,
    second_key: Seq<char>,
    second: bool,
) -> Option<Seq<char>>;

/// Writes a document of one table with one integer and two boolean entries
/// with `toml::to_string`, from a `toml::Table` built of the arguments. `None`
/// stands for an error of the serializer. Claimed without proof: the outcome
/// depends on the arguments alone.
#[verifier::external_body]
fn render_toml(
    table: &str,
    int_key: &str,
    int_value: i64,
    first_key: &str,
    first: bool,
    second_key: &str,
    second: bool,
) -> (text: Option<String>)
    ensures
        match text {
            Some(t) => toml_document(
                table@,
                int_key@,
                int_value as int,
                first_key@,
                first,
                second_key@,
                second,
            ) == Some(t@),
            None => toml_document(
                table@,
                int_key@,
                int_value as int,
                first_key@,
                first,
                second_key@,
                second,
            ) is None,
        },
{
    let mut entries = toml::Table::new();
    entries.insert(int_key.to_string(), toml::Value::Integer(int_value));
    entries.insert(first_key.to_string(), toml::Value::Boolean(first));
    entries.insert(second_key.to_string(), toml::Value::Boolean(second));
    let mut document = toml::Table::new();
    document.insert(table.to_string(), toml::Value::Table(entries));
    toml::to_string(&document).ok()
}

/// The options of the `core` table.
#[derive(Clone, Copy, Debug, PartialEq, Eq, Structural)]
pub struct Core {
    pub repositoryformatversion: i32,
    pub filemode: bool,
    pub bare: bool,
}

/// The settings of a repository.
#[derive(Clone, Copy, Debug, PartialEq, Eq, Structural)]
pub struct Settings {
    pub core: Core,
}

/// What one source says about the recognized options.
#[derive(Clone, Copy, Debug)]
pub struct Layer {
    pub repositoryformatversion: Option<i64>,
    pub filemode: Option<bool>,
    pub bare: Option<bool>,
}

/// The value of an option: that of the strongest source that gives one.
pub open spec fn pick<T>(low: T, mid: Option<T>, high: Option<T>) -> T {
    match high {
        Some(v) => v,
        None => match mid {
            Some(v) => v,
            None => low,
        },
    }
}

/// The built-in settings: format version 0, file modes honoured, not bare.
pub open spec fn default_settings() -> Settings {
    Settings { core: Core { repositoryformatversion: 0, filemode: true, bare: false } }
}

/// The source that says nothing.
pub open spec fn empty_layer() -> Layer {
    Layer { repositoryformatversion: None, filemode: None, bare: None }
}

/// What a loaded source says about an integer option.
pub open spec fn integer_option(source: Config, key: Seq<char>) -> Lookup<i64> {
    if !config_integers(source).dom().contains(key) {
        Lookup::Absent
    } else {
        match config_integers(source)[key] {
            Some(value) => Lookup::Found(value),
            None => Lookup::Invalid,
        }
    }
}

/// What a loaded source says about a boolean option.
pub open spec fn boolean_option(source: Config, key: Seq<char>) -> Lookup<bool> {
    if !config_booleans(source).dom().contains(key) {
        Lookup::Absent
    } else {
        match config_booleans(source)[key] {
            Some(value) => Lookup::Found(value),
            None => Lookup::Invalid,
        }
    }
}

/// What a loaded source says about the recognized options.
pub open spec fn source_layer(source: Config) -> Result<Layer, Error> {
    layer_of(
        integer_option(source, "core.repositoryformatversion"@),
        boolean_option(source, "core.filemode"@),
        boolean_option(source, "core.bare"@),
    )
}

/// What three answers of one source amount to: a layer, unless one of them is
/// of the wrong type.
pub open spec fn layer_of(version: Lookup<i64>, filemode: Lookup<bool>, bare: Lookup<bool>) -> Result<
    Layer,
    Error,
> {
    if version is Invalid || filemode is Invalid || bare is Invalid {
        Err(Error::ConfigError)
    } else {
        Ok(
            Layer {
                repositoryformatversion: match version {
                    Lookup::Found(v) => Some(v),
                    _ => None,
                },
                filemode: match filemode {
                    Lookup::Found(v) => Some(v),
                    _ => None,
                },
                bare: match bare {
                    Lookup::Found(v) => Some(v),
                    _ => None,
                },
            },
        )
    }
}

/// The settings that `base` becomes under a configuration file and, above it,
/// the environment. A format version that does not fit 32 bits is a
/// `ConfigError`.
pub open spec fn layered(base: Settings, file: Layer, env: Layer) -> Result<Settings, Error> {
    let version = pick(
        base.core.repositoryformatversion as i64,
        file.repositoryformatversion,
        env.repositoryformatversion,
    );
    if i32::MIN <= version <= i32::MAX {
        Ok(
            Settings {
                core: Core {
                    repositoryformatversion: version as i32,
                    filemode: pick(base.core.filemode, file.filemode, env.filemode),
                    bare: pick(base.core.bare, file.bare, env.bare),
                },
            },
        )
    } else {
        Err(Error::ConfigError)
    }
}

impl Layer {
    /// The source that says nothing.
    pub fn empty() -> (layer: Layer)
        ensures
            layer == empty_layer(),
    {
        Layer { repositoryformatversion: None, filemode: None, bare: None }
    }

    /// Gathers the answers of one source into a layer. Fails with
    /// `ConfigError` where one of them is of the wrong type.
    pub fn from_lookups(version: Lookup<i64>, filemode: Lookup<bool>, bare: Lookup<bool>) -> (result:
        Result<Layer, Error>)
        ensures
            result == layer_of(version, filemode, bare),
    {
        let version = match version {
            Lookup::Found(v) => Some(v),
            Lookup::Absent => None,
            Lookup::Invalid => {
                return Err(Error::ConfigError);
            },
        };
        let filemode = match filemode {
            Lookup::Found(v) => Some(v),
            Lookup::Absent => None,
            Lookup::Invalid => {
                return Err(Error::ConfigError);
            },
        };
        let bare = match bare {
            Lookup::Found(v) => Some(v),
            Lookup::Absent => None,
            Lookup::Invalid => {
                return Err(Error::ConfigError);
            },
        };
        Ok(Layer { repositoryformatversion: version, filemode, bare })
    }

    /// Asks a loaded source for the recognized options: what it holds under
    /// `core.repositoryformatversion` as an integer and under `core.filemode`
    /// and `core.bare` as booleans, gathered into a layer. Fails with
    /// `ConfigError` where one of the three is of the wrong type.
    fn read(source: &Config) -> (result: Result<Layer, Error>)
        ensures
            result == source_layer(*source),
            result is Err ==> result == Err::<Layer, Error>(Error::ConfigError),
    {
        let version = lookup_int(source, "core.repositoryformatversion");
        let filemode = lookup_bool(source, "core.filemode");
        let bare = lookup_bool(source, "core.bare");
        Layer::from_lookups(version, filemode, bare)
    }
}

impl Settings {
    /// The built-in settings.
    pub fn defaults() -> (settings: Settings)
        ensures
            settings == default_settings(),
    {
        Settings { core: Core { repositoryformatversion: 0, filemode: true, bare: false } }
    }

    /// These settings under a configuration file and, above it, the
    /// environment: each option has the value of the strongest source that
    /// gives one.
    pub fn layered(&self, file: &Layer, env: &Layer) -> (result: Result<Settings, Error>)
        ensures
            result == layered(*self, *file, *env),
    {
        let version: i64 = match env.repositoryformatversion {
            Some(v) => v,
            None => match file.repositoryformatversion {
                Some(v) => v,
                None => self.core.repositoryformatversion as i64,
            },
        };
        if version < -2147483648 || version > 2147483647 {
            return Err(Error::ConfigError);
        }
        let filemode = match env.filemode {
            Some(v) => v,
            None => match file.filemode {
                Some(v) => v,
                None => self.core.filemode,
            },
        };
        let bare = match env.bare {
            Some(v) => v,
            None => match file.bare {
                Some(v) => v,
                None => self.core.bare,
            },
        };
        Ok(Settings { core: Core { repositoryformatversion: version as i32, filemode, bare } })
    }

    /// Resolves the settings from the built-in defaults, the text of a
    /// configuration file where one is given, and the environment variables
    /// `env` (pairs of name and value; those named `LEGIT_` and an option's
    /// dotted path count). The sources are read by the `config` crate. Fails
    /// with `ConfigError`, and with no other error, where a source is
    /// malformed or gives an option a value of the wrong type; a text that
    /// does not load as TOML always fails. Without a file and without
    /// variables the result is the defaults.
    pub fn new(use_config: Option<&str>, env: &Vec<(String, String)>) -> (result: Result<
        Settings,
        Error,
    >)
        ensures
            result is Err ==> result == Err::<Settings, Error>(Error::ConfigError),
            use_config is Some && !toml_loads(use_config.unwrap()@) ==> result == Err::<
                Settings,
                Error,
            >(Error::ConfigError),
            use_config is None && env@.len() == 0 ==> result == Ok::<Settings, Error>(
                default_settings(),
            ),
    {
        let file = match use_config {
            None => Layer::empty(),
            Some(text) => match load_text(text) {
                None => {
                    return Err(Error::ConfigError);
                },
                Some(source) => match Layer::read(&source) {
                    Ok(layer) => layer,
                    Err(e) => {
                        return Err(e);
                    },
                },
            },
        };
        let above = if env.len() == 0 {
            Layer::empty()
        } else {
            match load_env("LEGIT", env) {
                None => {
                    return Err(Error::ConfigError);
                },
                Some(source) => match Layer::read(&source) {
                    Ok(layer) => layer,
                    Err(e) => {
                        return Err(e);
                    },
                },
            }
        };
        Settings::defaults().layered(&file, &above)
    }

    /// The text of the configuration file for these settings, as the `toml`
    /// crate writes it: a table `core` with the three options. `None` where,
    /// and only where, the serializer reports an error.
    pub fn to_toml(&self) -> (text: Option<String>)
        ensures
            match text {
                Some(t) => settings_toml(*self) == Some(t@),
                None => settings_toml(*self) is None,
            },
            text is Some ==> text.unwrap()@ == settings_text(*self),
    {
        render_toml(
            "core",
            "repositoryformatversion",
            self.core.repositoryformatversion as i64,
            "filemode",
            self.core.filemode,
            "bare",
            self.core.bare,
        )
    }
}

/// The text of the configuration file for `settings`, where it can be
/// written.
pub open spec fn settings_text(settings: Settings) -> Seq<char>
    recommends
        settings_toml(settings) is Some,
{
    settings_toml(settings).unwrap()
}

/// What the serializer makes of `settings`: the text of a table `core` with
/// the three options, or nothing where it reports an error.
pub open spec fn settings_toml(settings: Settings) -> Option<Seq<char>> {
    toml_document(
        "core"@,
        "repositoryformatversion"@,
        settings.core.repositoryformatversion as int,
        "filemode"@,
        settings.core.filemode,
        "bare"@,
        settings.core.bare,
    )
}

} // verus!
