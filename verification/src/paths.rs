//! Where things are kept.

use vstd::prelude::*;

use crate::error::{AliazError, Failure};
use crate::names;
use crate::names::secret_file_name;
use crate::shell::Shell;
use crate::text;

verus! {

/// A directory that the environment or the system names.
#[derive(Clone, Copy, Debug, PartialEq, Eq, Structural)]
pub enum Base {
    /// `ALIAZ_DATA_HOME`.
    AliazDataHome,
    /// `ALIAS_TOOL_HOME`.
    AliasToolHome,
    /// The directory of the system for data.
    DataDirectory,
    /// `ALIAZ_CONFIG_HOME`.
    AliazConfigHome,
    /// `XDG_CONFIG_HOME`.
    XdgConfigHome,
    /// The directory of the system for configuration.
    ConfigDirectory,
    /// `ALIAZ_SECRET_HOME`.
    AliazSecretHome,
    /// `ALIAZ_TEST_SECRET_HOME`.
    AliazTestSecretHome,
    /// The home directory of the user.
    Home,
    /// The current directory.
    Current,
}

/// Which of these directories are named.
#[derive(Clone, Copy, Debug, PartialEq, Eq, Structural)]
pub struct Named {
    pub aliaz_data_home: bool,
    pub alias_tool_home: bool,
    pub data_directory: bool,
    pub aliaz_config_home: bool,
    pub xdg_config_home: bool,
    pub config_directory: bool,
    pub aliaz_secret_home: bool,
    pub aliaz_test_secret_home: bool,
    pub home: bool,
}

/// A file or directory: a directory that is named, and the names that lead on from there.
#[derive(Debug)]
pub struct Location {
    pub base: Base,
    pub parts: Vec<String>,
}

/// The same, as mathematics.
#[verifier::ext_equal]
pub struct Place {
    pub base: Base,
    pub parts: Seq<Seq<char>>,
}

impl View for Location {
    type V = Place;

    open spec fn view(&self) -> Place {
        Place { base: self.base, parts: text::texts(self.parts@) }
    }
}

/// A result whose value is a place.
pub open spec fn seen_place(r: Result<Location, AliazError>) -> Result<Place, Failure> {
    match r {
        Ok(location) => Ok(location@),
        Err(e) => Err(e@),
    }
}

/// The place that is reached from another one by one more name.
pub open spec fn below(place: Place, name: Seq<char>) -> Place {
    Place { base: place.base, parts: place.parts.push(name) }
}

pub open spec fn at_base(base: Base) -> Place {
    Place { base: base, parts: Seq::empty() }
}

impl Location {
    fn at(base: Base) -> (r: Location)
        ensures
            r@ == at_base(base),
    {
        let parts: Vec<String> = Vec::new();
        assert(text::texts(parts@) =~= Seq::<Seq<char>>::empty());
        Location { base, parts }
    }

    fn join(self, name: &str) -> (r: Location)
        ensures
            r@ == below(self@, name@),
    {
        let mut parts = self.parts;
        let ghost before = text::texts(parts@);
        parts.push(name.to_owned());
        assert(text::texts(parts@) =~= before.push(name@));
        Location { base: self.base, parts }
    }
}

// ---------------------------------------------------------------------------
// The database
// ---------------------------------------------------------------------------
/// Where the database is.
pub open spec fn database_place(named: Named) -> Result<Place, Failure> {
    if named.aliaz_data_home {
        Ok(below(at_base(Base::AliazDataHome), "aliases.sqlite3"@))
    } else if named.alias_tool_home {
        Ok(below(at_base(Base::AliasToolHome), "aliases.sqlite3"@))
    } else if named.data_directory {
        Ok(below(below(at_base(Base::DataDirectory), "aliaz"@), "aliases.sqlite3"@))
    } else {
        Err(Failure::NoDataDirectory)
    }
}

/// Where the database is.
pub fn database_path(named: &Named) -> (r: Result<Location, AliazError>)
    ensures
        seen_place(r) == database_place(*named),
{
    if named.aliaz_data_home {
        Ok(Location::at(Base::AliazDataHome).join("aliases.sqlite3"))
    } else if named.alias_tool_home {
        Ok(Location::at(Base::AliasToolHome).join("aliases.sqlite3"))
    } else if named.data_directory {
        Ok(Location::at(Base::DataDirectory).join("aliaz").join("aliases.sqlite3"))
    } else {
        Err(AliazError::NoDataDirectory)
    }
}

// ---------------------------------------------------------------------------
// The home directory
// ---------------------------------------------------------------------------
/// The home directory.
pub fn home_dir(named: &Named) -> (r: Result<Location, AliazError>)
    ensures
        seen_place(r) == if named.home {
            Ok(at_base(Base::Home))
        } else {
            Err(Failure::NoHomeDirectory)
        },
{
    if named.home {
        Ok(Location::at(Base::Home))
    } else {
        Err(AliazError::NoHomeDirectory)
    }
}

/// The file that aliases are imported from where none is named: in the home directory, or else in the
/// current one.
pub open spec fn zshrc_place(named: Named) -> Place {
    below(
        at_base(
            if named.home {
                Base::Home
            } else {
                Base::Current
            },
        ),
        ".zshrc"@,
    )
}

/// The file that aliases are imported from where none is named.
pub fn default_zshrc_path(named: &Named) -> (r: Location)
    ensures
        r@ == zshrc_place(*named),
{
    if named.home {
        Location::at(Base::Home).join(".zshrc")
    } else {
        Location::at(Base::Current).join(".zshrc")
    }
}

// ---------------------------------------------------------------------------
// Configuration
// ---------------------------------------------------------------------------
/// Where the configuration of synchronising is.
pub open spec fn config_place(named: Named) -> Result<Place, Failure> {
    if named.aliaz_config_home {
        Ok(below(below(at_base(Base::AliazConfigHome), "aliaz"@), "config.json"@))
    } else if named.config_directory {
        Ok(below(below(at_base(Base::ConfigDirectory), "aliaz"@), "config.json"@))
    } else {
        Err(Failure::NoConfigDirectory)
    }
}

fn config_home(named: &Named) -> (r: Result<Location, AliazError>)
    ensures
        seen_place(r) == if named.aliaz_config_home {
            Ok(at_base(Base::AliazConfigHome))
        } else if named.config_directory {
            Ok(at_base(Base::ConfigDirectory))
        } else {
            Err(Failure::NoConfigDirectory)
        },
{
    if named.aliaz_config_home {
        Ok(Location::at(Base::AliazConfigHome))
    } else if named.config_directory {
        Ok(Location::at(Base::ConfigDirectory))
    } else {
        Err(AliazError::NoConfigDirectory)
    }
}

/// Where the configuration of synchronising is.
pub fn config_path(named: &Named) -> (r: Result<Location, AliazError>)
    ensures
        seen_place(r) == config_place(*named),
{
    match config_home(named) {
        Ok(home) => Ok(home.join("aliaz").join("config.json")),
        Err(e) => Err(e),
    }
}

/// Where the shells keep their configuration.
pub open spec fn shell_config_place(named: Named) -> Result<Place, Failure> {
    if named.aliaz_config_home {
        Ok(at_base(Base::AliazConfigHome))
    } else if named.xdg_config_home {
        Ok(at_base(Base::XdgConfigHome))
    } else if named.home {
        Ok(below(at_base(Base::Home), ".config"@))
    } else {
        Err(Failure::NoHomeDirectory)
    }
}

/// Where the shells keep their configuration.
pub fn shell_config_home(named: &Named) -> (r: Result<Location, AliazError>)
    ensures
        seen_place(r) == shell_config_place(*named),
{
    if named.aliaz_config_home {
        Ok(Location::at(Base::AliazConfigHome))
    } else if named.xdg_config_home {
        Ok(Location::at(Base::XdgConfigHome))
    } else {
        match home_dir(named) {
            Ok(home) => Ok(home.join(".config")),
            Err(e) => Err(e),
        }
    }
}

/// Where the managed file of a shell is.
pub open spec fn integration_place(named: Named, shell: Shell) -> Result<Place, Failure> {
    match shell_config_place(named) {
        Ok(home) => Ok(
            if shell == Shell::Fish {
                below(below(below(home, "fish"@), "conf.d"@), "aliaz.fish"@)
            } else {
                below(below(home, "aliaz"@), "aliases.sh"@)
            },
        ),
        Err(f) => Err(f),
    }
}

/// Where the managed file of a shell is.
pub fn shell_integration_path(named: &Named, shell: &Shell) -> (r: Result<Location, AliazError>)
    ensures
        seen_place(r) == integration_place(*named, *shell),
{
    let home = match shell_config_home(named) {
        Ok(home) => home,
        Err(e) => {
            return Err(e);
        },
    };
    match shell {
        Shell::Fish => Ok(home.join("fish").join("conf.d").join("aliaz.fish")),
        _ => Ok(home.join("aliaz").join("aliases.sh")),
    }
}

/// Where the managed file of zsh and bash usually is.
pub open spec fn usual_place(named: Named) -> Result<Place, Failure> {
    if named.home {
        Ok(below(below(below(at_base(Base::Home), ".config"@), "aliaz"@), "aliases.sh"@))
    } else {
        Err(Failure::NoHomeDirectory)
    }
}

/// Where the managed file of zsh and bash usually is.
pub fn usual_integration_path(named: &Named) -> (r: Result<Location, AliazError>)
    ensures
        seen_place(r) == usual_place(*named),
{
    match home_dir(named) {
        Ok(home) => Ok(home.join(".config").join("aliaz").join("aliases.sh")),
        Err(e) => Err(e),
    }
}

/// Where the startup file of a shell is.
pub open spec fn startup_place(named: Named, shell: Shell) -> Result<Place, Failure> {
    if shell == Shell::Fish {
        Err(Failure::NoStartupFile)
    } else if !named.home {
        Err(Failure::NoHomeDirectory)
    } else if shell == Shell::Zsh {
        Ok(below(at_base(Base::Home), ".zshrc"@))
    } else {
        Ok(below(at_base(Base::Home), ".bashrc"@))
    }
}

/// Where the startup file of a shell is. Fish has none.
pub fn startup_path(named: &Named, shell: &Shell) -> (r: Result<Location, AliazError>)
    ensures
        seen_place(r) == startup_place(*named, *shell),
{
    let name = match shell {
        Shell::Zsh => ".zshrc",
        Shell::Bash => ".bashrc",
        Shell::Fish => {
            return Err(AliazError::NoStartupFile);
        },
    };
    match home_dir(named) {
        Ok(home) => Ok(home.join(name)),
        Err(e) => Err(e),
    }
}

// ---------------------------------------------------------------------------
// Secrets
// ---------------------------------------------------------------------------
/// Where the secret of a user is kept in a file: `None` where it is kept by the system.
pub open spec fn secret_place(named: Named, user_id: Seq<char>) -> Option<Place> {
    if named.aliaz_test_secret_home {
        Some(below(at_base(Base::AliazTestSecretHome), names::secret_file_name_of(user_id)))
    } else if named.aliaz_secret_home {
        Some(below(at_base(Base::AliazSecretHome), names::secret_file_name_of(user_id)))
    } else {
        None
    }
}

/// Where the secret of a user is kept in a file: `None` where it is kept by the system.
pub fn secret_path(named: &Named, user_id: &str) -> (r: Option<Location>)
    ensures
        match secret_place(*named, user_id@) {
            Some(place) => r matches Some(location) && location@ == place,
            None => r is None,
        },
{
    let name = secret_file_name(user_id);
    if named.aliaz_test_secret_home {
        Some(Location::at(Base::AliazTestSecretHome).join(name.as_str()))
    } else if named.aliaz_secret_home {
        Some(Location::at(Base::AliazSecretHome).join(name.as_str()))
    } else {
        None
    }
}

/// Whether the recovery phrase of a user could be loaded.
pub fn recovery_phrase_available(loaded: Option<&str>) -> (r: bool)
    ensures
        r == (loaded is Some),
{
    loaded.is_some()
}

// ---------------------------------------------------------------------------
// What comes before what
// ---------------------------------------------------------------------------
/// The database is in the directory that `ALIAZ_DATA_HOME` names, or else in the one that
/// `ALIAS_TOOL_HOME` names, or else under `aliaz` in the one of the system. Nothing else counts.
pub proof fn law_database_place(named: Named)
    ensures
        database_place(named) is Ok <==> named.aliaz_data_home || named.alias_tool_home
            || named.data_directory,
        database_place(named) matches Err(f) ==> f == Failure::NoDataDirectory,
        database_place(named) matches Ok(place) ==> {
            &&& place.parts.last() == "aliases.sqlite3"@
            &&& place.base == Base::AliazDataHome <==> named.aliaz_data_home
            &&& place.base == Base::AliasToolHome <==> named.alias_tool_home
                && !named.aliaz_data_home
            &&& place.base == Base::DataDirectory <==> !named.alias_tool_home
                && !named.aliaz_data_home
            &&& place.base != Base::DataDirectory ==> place.parts.len() == 1
            &&& place.base == Base::DataDirectory ==> place.parts.len() == 2 && place.parts[0]
                == "aliaz"@
        },
{
}

/// The configuration is `aliaz/config.json` in the directory that `ALIAZ_CONFIG_HOME` names, or
/// else in the one of the system.
pub proof fn law_config_place(named: Named)
    ensures
        config_place(named) is Ok <==> named.aliaz_config_home || named.config_directory,
        config_place(named) matches Err(f) ==> f == Failure::NoConfigDirectory,
        config_place(named) matches Ok(place) ==> {
            &&& place.parts =~= seq!["aliaz"@, "config.json"@]
            &&& place.base == Base::AliazConfigHome <==> named.aliaz_config_home
            &&& place.base == Base::ConfigDirectory <==> !named.aliaz_config_home
        },
{
}

/// The shells keep their configuration in the directory that `ALIAZ_CONFIG_HOME` names, or else in
/// the one that `XDG_CONFIG_HOME` names, or else in `.config` in the home directory.
pub proof fn law_shell_config_place(named: Named)
    ensures
        shell_config_place(named) is Ok <==> named.aliaz_config_home || named.xdg_config_home
            || named.home,
        shell_config_place(named) matches Err(f) ==> f == Failure::NoHomeDirectory,
        shell_config_place(named) matches Ok(place) ==> {
            &&& place.base == Base::AliazConfigHome <==> named.aliaz_config_home
            &&& place.base == Base::XdgConfigHome <==> named.xdg_config_home
                && !named.aliaz_config_home
            &&& place.base == Base::Home <==> !named.xdg_config_home && !named.aliaz_config_home
            &&& place.base == Base::Home ==> place.parts =~= seq![".config"@]
            &&& place.base != Base::Home ==> place.parts.len() == 0
        },
{
}

/// The managed file is below where the shells keep their configuration: one for fish, and another
/// one that zsh and bash share.
pub proof fn law_integration_place(named: Named, shell: Shell)
    ensures
        match (integration_place(named, shell), shell_config_place(named)) {
            (Ok(place), Ok(home)) => {
                &&& place.base == home.base
                &&& shell == Shell::Fish ==> place.parts =~= home.parts + seq![
                    "fish"@,
                    "conf.d"@,
                    "aliaz.fish"@,
                ]
                &&& shell != Shell::Fish ==> place.parts =~= home.parts + seq![
                    "aliaz"@,
                    "aliases.sh"@,
                ]
            },
            (Err(f), Err(g)) => f == g,
            _ => false,
        },
        integration_place(named, Shell::Zsh) == integration_place(named, Shell::Bash),
{
}

/// Zsh and bash have a startup file each in the home directory; fish has none.
pub proof fn law_startup_place(named: Named)
    ensures
        startup_place(named, Shell::Fish) == Err::<Place, Failure>(Failure::NoStartupFile),
        !named.home ==> startup_place(named, Shell::Zsh) == Err::<Place, Failure>(
            Failure::NoHomeDirectory,
        ) && startup_place(named, Shell::Bash) == Err::<Place, Failure>(Failure::NoHomeDirectory),
        named.home ==> {
            let zsh = startup_place(named, Shell::Zsh);
            let bash = startup_place(named, Shell::Bash);
            &&& zsh is Ok && bash is Ok
            &&& zsh->Ok_0.base == Base::Home && bash->Ok_0.base == Base::Home
            &&& zsh->Ok_0.parts =~= seq![".zshrc"@]
            &&& bash->Ok_0.parts =~= seq![".bashrc"@]
        },
{
}

/// A secret is kept in a file only where a directory for it is named, the one for tests before the
/// other, in a file that is named after the user's id.
pub proof fn law_secret_place(named: Named, user_id: Seq<char>)
    ensures
        secret_place(named, user_id) is Some <==> named.aliaz_test_secret_home
            || named.aliaz_secret_home,
        secret_place(named, user_id) matches Some(place) ==> {
            &&& place.base == Base::AliazTestSecretHome <==> named.aliaz_test_secret_home
            &&& place.base == Base::AliazSecretHome <==> !named.aliaz_test_secret_home
            &&& place.parts.len() == 1
            &&& place.parts[0] == names::secret_file_name_of(user_id)
        },
{
}

/// The usual place of the managed file is where it is when no other directory for configuration is
/// named, and aliases are imported from the startup file of zsh where there is a home directory.
pub proof fn law_usual_places(named: Named, shell: Shell)
    ensures
        !named.aliaz_config_home && !named.xdg_config_home && shell != Shell::Fish ==> usual_place(
            named,
        ) == integration_place(named, shell),
        usual_place(named) == usual_place(
            Named { aliaz_config_home: false, xdg_config_home: false, ..named },
        ),
        named.home ==> Ok::<Place, Failure>(zshrc_place(named)) == startup_place(named, Shell::Zsh),
        !named.home ==> zshrc_place(named).base == Base::Current && zshrc_place(named).parts =~= seq![
            ".zshrc"@,
        ],
{
}

} // verus!
