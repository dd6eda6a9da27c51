//! The CLI's settings: its subdomain, its machine id, its last look for
//! updates.
use vstd::prelude::*;

use crate::identity::derive_machine_id;
use crate::protocol::validate_subdomain;
use crate::text::{chars_of, opt_clone, string_of, to_lower, trimmed};

verus! {

/// A day.
pub const UPDATE_CHECK_INTERVAL_SECS: i64 = 86400;

/// What is kept in the settings file.
#[derive(Debug, PartialEq, Eq)]
pub struct ConfigFile {
    pub subdomain: Option<String>,
    pub machine_id: Option<String>,
    /// Unix time of the last background update check.
    pub last_update_check: Option<i64>,
}

#[verifier::ext_equal]
pub ghost struct ConfigView {
    pub path: Seq<char>,
    pub subdomain: Option<Seq<char>>,
    pub machine_id: Option<Seq<char>>,
    pub last_update_check: Option<i64>,
}

impl Default for ConfigFile {
    fn default() -> (data: Self)
        ensures
            data.subdomain is None,
            data.machine_id is None,
            data.last_update_check is None,
    {
        ConfigFile { subdomain: None, machine_id: None, last_update_check: None }
    }
}

/// The settings, and the file that they are kept in.
pub struct Config {
    path: String,
    data: ConfigFile,
}

impl View for Config {
    type V = ConfigView;

    closed spec fn view(&self) -> ConfigView {
        ConfigView {
            path: self.path@,
            subdomain: crate::text::opt_text(self.data.subdomain),
            machine_id: crate::text::opt_text(self.data.machine_id),
            last_update_check: self.data.last_update_check,
        }
    }
}

/// A name as it is kept: without white space around it, in small letters.
pub open spec fn normal_name(typed: Seq<char>) -> Seq<char> {
    crate::text::lower(crate::text::trim(typed))
}

/// The machine id of some settings, where `derived` is the one that would be
/// new.
pub open spec fn settled_id(config: ConfigView, derived: Seq<char>) -> Seq<char> {
    match config.machine_id {
        Some(id) => id,
        None => derived,
    }
}

/// The settings with their machine id settled.
pub open spec fn with_id(config: ConfigView, derived: Seq<char>) -> ConfigView {
    ConfigView { machine_id: Some(settled_id(config, derived)), ..config }
}

/// A machine keeps the id that it got first, whatever could be derived later,
/// and settling it leaves the other settings alone.
pub proof fn law_machine_id_stays(config: ConfigView, first: Seq<char>, later: Seq<char>)
    ensures
        settled_id(with_id(config, first), later) == settled_id(config, first),
        with_id(with_id(config, first), later) == with_id(config, first),
        with_id(config, first).subdomain == config.subdomain,
        with_id(config, first).last_update_check == config.last_update_check,
{
}

/// How the question for a subdomain is settled.
pub enum Subdomain {
    /// The name; it is new where the settings are to be saved.
    Settled { name: String, save: bool },
    /// There is none yet: somebody must be asked.
    Ask,
}

impl Config {
    /// Settings that were read from a file.
    pub fn from_file(path: String, data: ConfigFile) -> (config: Config)
        ensures
            config@ == (ConfigView {
                path: path@,
                subdomain: crate::text::opt_text(data.subdomain),
                machine_id: crate::text::opt_text(data.machine_id),
                last_update_check: data.last_update_check,
            }),
    {
        Config { path, data }
    }

    /// What is to be kept in the file.
    pub fn data(&self) -> (data: ConfigFile)
        ensures
            crate::text::opt_text(data.subdomain) == self@.subdomain,
            crate::text::opt_text(data.machine_id) == self@.machine_id,
            data.last_update_check == self@.last_update_check,
    {
        ConfigFile {
            subdomain: opt_clone(&self.data.subdomain),
            machine_id: opt_clone(&self.data.machine_id),
            last_update_check: self.data.last_update_check,
        }
    }

    pub fn path(&self) -> (res: &str)
        ensures
            res@ == self@.path,
    {
        self.path.as_str()
    }

    pub fn subdomain(&self) -> (res: Option<&str>)
        ensures
            crate::http::opt_str(res) == self@.subdomain,
    {
        match &self.data.subdomain {
            Some(s) => Some(s.as_str()),
            None => None,
        }
    }

    /// The machine id, and whether it is new and the settings are to be saved.
    /// A new one comes from the hardware id, or from chance where that is
    /// unknown.
    pub fn machine_id(&mut self, hardware: Option<String>) -> (res: (String, bool))
        ensures
            final(self)@ == with_id(old(self)@, res.0@),
            res.0@ == settled_id(old(self)@, res.0@),
            match old(self)@.machine_id {
                Some(id) => res.0@ == id && !res.1,
                None => {
                    &&& res.1
                    &&& crate::identity::is_id(res.0@)
                    &&& hardware matches Some(raw) ==> res.0@ == crate::identity::id_of(raw@)
                    &&& hardware is None ==> exists|raw: Seq<char>|
                        crate::identity::is_id(raw) && res.0@ == #[trigger] crate::identity::id_of(
                            raw,
                        )
                },
            },
    {
        if let Some(id) = opt_clone(&self.data.machine_id) {
            return (id, false);
        }
        let id: String = derive_machine_id(hardware);
        self.data.machine_id = Some(id.clone());
        (id, true)
    }

    /// Take a typed name, if it is a valid one.
    pub fn choose_subdomain(&mut self, typed: &str) -> (res: Result<String, String>)
        ensures
            match crate::protocol::subdomain_fault(normal_name(typed@)) {
                None => {
                    &&& res matches Ok(name) && name@ == normal_name(typed@)
                    &&& final(self)@ == (ConfigView {
                        subdomain: Some(normal_name(typed@)),
                        ..old(self)@
                    })
                },
                Some(fault) => {
                    &&& res matches Err(message) && message@ == fault
                    &&& final(self)@ == old(self)@
                },
            },
    {
        let chars: Vec<char> = chars_of(typed);
        let name: String = string_of(to_lower(trimmed(chars.as_slice())).as_slice());
        match validate_subdomain(name.as_str()) {
            Err(message) => Err(message),
            Ok(()) => {
                self.data.subdomain = Some(name.clone());
                Ok(name)
            },
        }
    }

    /// The subdomain to use: one that is given now is taken and kept, else the
    /// one that was kept before.
    pub fn ensure_subdomain(&mut self, explicit: Option<String>) -> (res: Result<
        Subdomain,
        String,
    >)
        ensures
            match explicit {
                Some(typed) => match crate::protocol::subdomain_fault(normal_name(typed@)) {
                    None => {
                        &&& res matches Ok(Subdomain::Settled { name, save }) && name@
                            == normal_name(typed@) && save
                        &&& final(self)@ == (ConfigView {
                            subdomain: Some(normal_name(typed@)),
                            ..old(self)@
                        })
                    },
                    Some(fault) => {
                        &&& res matches Err(message) && message@ == fault
                        &&& final(self)@ == old(self)@
                    },
                },
                None => {
                    &&& final(self)@ == old(self)@
                    &&& match old(self)@.subdomain {
                        Some(kept) => res matches Ok(Subdomain::Settled { name, save }) && name@
                            == kept && !save,
                        None => res matches Ok(Subdomain::Ask),
                    }
                },
            },
    {
        if let Some(typed) = explicit {
            return match self.choose_subdomain(typed.as_str()) {
                Ok(name) => Ok(Subdomain::Settled { name, save: true }),
                Err(message) => Err(message),
            };
        }
        match opt_clone(&self.data.subdomain) {
            Some(name) => Ok(Subdomain::Settled { name, save: false }),
            None => Ok(Subdomain::Ask),
        }
    }

    /// A day has passed since the last look for updates, or there was none.
    pub fn should_check_updates(&self, now: i64) -> (res: bool)
        ensures
            res == (match self@.last_update_check {
                Some(last) => now - last >= 86400,
                None => true,
            }),
    {
        match self.data.last_update_check {
            Some(last) => now as i128 - last as i128 >= UPDATE_CHECK_INTERVAL_SECS as i128,
            None => true,
        }
    }

    /// Note the time of a look for updates.
    pub fn record_update_check(&mut self, now: i64)
        ensures
            final(self)@ == (ConfigView { last_update_check: Some(now), ..old(self)@ }),
    {
        self.data.last_update_check = Some(now);
    }
}

/// What is said where nobody can be asked for a subdomain.
pub fn no_subdomain_message() -> (res: String)
    ensures
        res@
            == "no subdomain configured; pass --subdomain or run `vyse serve` from a terminal to set one interactively"@,
{
    "no subdomain configured; pass --subdomain or run `vyse serve` from a terminal to set one interactively".to_owned()
}

/// A name is kept in small letters, without the white space around it.
pub proof fn law_kept_names(front: Seq<char>, name: Seq<char>, back: Seq<char>)
    requires
        forall|i: int| 0 <= i < front.len() ==> crate::text::is_space(#[trigger] front[i]),
        forall|i: int| 0 <= i < back.len() ==> crate::text::is_space(#[trigger] back[i]),
        name.len() > 0 ==> !crate::text::is_space(name[0]) && !crate::text::is_space(name.last()),
    ensures
        normal_name(front + name + back).len() == name.len(),
        forall|i: int|
            0 <= i < name.len() ==> (#[trigger] normal_name(front + name + back)[i]) as int == (
            if 'A' <= name[i] <= 'Z' {
                name[i] as int + 32
            } else {
                name[i] as int
            }),
{
    crate::text::law_trim_takes_what_is_around(front, name, back);
    crate::text::law_lower(name);
}

/// Settings with a machine id keep it; others take the derived one. Nothing else
/// of them changes.
pub proof fn law_settled_ids(config: ConfigView, id: Seq<char>, derived: Seq<char>)
    ensures
        config.machine_id == Some(id) ==> settled_id(config, derived) == id && with_id(
            config,
            derived,
        ) == config,
        config.machine_id is None ==> settled_id(config, derived) == derived && with_id(
            config,
            derived,
        ) == (ConfigView {
            path: config.path,
            subdomain: config.subdomain,
            machine_id: Some(derived),
            last_update_check: config.last_update_check,
        }),
{
}

/// Updates are looked for where that was never done, and a day after it was.
pub proof fn law_looks_for_updates(config: &Config, now: i64, res: bool)
    requires
        call_ensures(Config::should_check_updates, (config, now), res),
    ensures
        config@.last_update_check is None ==> res,
        config@.last_update_check matches Some(last) ==> (res <==> last + 86400 <= now),
{
}

/// A name that is given is taken and kept where it is a valid one, and refused with
/// the reason where it is not; without one the kept name stays, and where there is
/// none somebody is asked. Nothing else of the settings changes.
pub proof fn law_settled_names(explicit: Option<String>, res: Result<Subdomain, String>)
    ensures
        forall|config: &mut Config|
            #[trigger] call_ensures(Config::ensure_subdomain, (config, explicit), res) ==> {
                let (before, after) = (mut_ref_current(config)@, mut_ref_future(config)@);
                &&& after.path == before.path
                &&& after.machine_id == before.machine_id
                &&& after.last_update_check == before.last_update_check
                &&& explicit is None ==> after == before
                &&& explicit is None && before.subdomain is None ==> res == Ok::<
                    Subdomain,
                    String,
                >(Subdomain::Ask)
                &&& res is Err ==> after == before && explicit is Some
                &&& res matches Ok(Subdomain::Settled { name, save }) ==> {
                    &&& after.subdomain == Some(name@)
                    &&& save <==> explicit is Some
                }
                &&& explicit matches Some(typed) ==> {
                    let name = normal_name(typed@);
                    let fault = crate::protocol::subdomain_fault(name);
                    &&& fault is None ==> after.subdomain == Some(name) && res is Ok
                    &&& fault matches Some(reason) ==> (res matches Err(message) && message@
                        == reason)
                }
            },
{
}

/// A typed name is kept where it is a valid one, and the time of a look for updates
/// is noted; nothing else of the settings changes.
pub proof fn law_kept_settings(typed: &str, chosen: Result<String, String>, now: i64)
    ensures
        forall|config: &mut Config|
            #[trigger] call_ensures(Config::choose_subdomain, (config, typed), chosen) ==> {
                let (before, after) = (mut_ref_current(config)@, mut_ref_future(config)@);
                let fault = crate::protocol::subdomain_fault(normal_name(typed@));
                &&& chosen is Ok <==> fault is None
                &&& chosen matches Ok(name) ==> name@ == normal_name(typed@) && after == (
                ConfigView {
                    path: before.path,
                    subdomain: Some(name@),
                    machine_id: before.machine_id,
                    last_update_check: before.last_update_check,
                })
                &&& chosen matches Err(message) ==> fault == Some(message@) && after == before
            },
        forall|config: &mut Config|
            #[trigger] call_ensures(Config::record_update_check, (config, now), ()) ==> {
                let (before, after) = (mut_ref_current(config)@, mut_ref_future(config)@);
                after == (ConfigView {
                    path: before.path,
                    subdomain: before.subdomain,
                    machine_id: before.machine_id,
                    last_update_check: Some(now),
                })
            },
{
}

/// Settings that were read are written as they were read.
pub proof fn law_settings_are_written_as_read(
    path: String,
    read: ConfigFile,
    config: Config,
    written: ConfigFile,
    kept: Option<&str>,
    place: &str,
)
    requires
        call_ensures(Config::from_file, (path, read), config),
        call_ensures(Config::data, (&config,), written),
        call_ensures(Config::subdomain, (&config,), kept),
        call_ensures(Config::path, (&config,), place),
    ensures
        crate::text::opt_text(written.subdomain) == crate::text::opt_text(read.subdomain),
        crate::text::opt_text(written.machine_id) == crate::text::opt_text(read.machine_id),
        written.last_update_check == read.last_update_check,
        crate::http::opt_str(kept) == crate::text::opt_text(read.subdomain),
        place@ == path@,
{
}

} // verus!
