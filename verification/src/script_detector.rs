//! Detects a project folder's runnable scripts and package manager, so the
//! project form can offer a script picker instead of a blank command box.
//!
//! Which lockfiles exist and what `package.json` holds are read outside the
//! library; the decisions are made here.

use crate::error::AppError;
use crate::text::to_owned_string;
use vstd::prelude::*;

verus! {

const MODULE: &'static str = "script_detector";

#[derive(Debug)]
pub struct DetectedScript {
    pub name: String,
    pub command: String,
}

#[derive(Debug)]
pub struct DetectedConfig {
    pub name: Option<String>,
    pub package_manager: String,
    pub scripts: Vec<DetectedScript>,
}

/// Which lockfiles the project folder holds.
#[derive(Debug)]
pub struct Lockfiles {
    pub pnpm_lock_yaml: bool,
    pub bun_lockb: bool,
    pub bun_lock: bool,
    pub yarn_lock: bool,
}

/// The package manager a folder's lockfiles point to: pnpm, then bun (either
/// lockfile spelling), then yarn, else npm.
pub open spec fn package_manager_of(found: Lockfiles) -> Seq<char> {
    if found.pnpm_lock_yaml {
        "pnpm"@
    } else if found.bun_lockb || found.bun_lock {
        "bun"@
    } else if found.yarn_lock {
        "yarn"@
    } else {
        "npm"@
    }
}

pub fn detect_package_manager(found: &Lockfiles) -> (r: &'static str)
    ensures
        r@ == package_manager_of(*found),
{
    if found.pnpm_lock_yaml {
        "pnpm"
    } else if found.bun_lockb || found.bun_lock {
        "bun"
    } else if found.yarn_lock {
        "yarn"
    } else {
        "npm"
    }
}

/// A top-level `package.json` field, by what the detector needs of it.
pub enum ManifestField {
    Absent,
    Text(String),
    /// Present, but not a string.
    Other,
}

pub enum FieldView {
    Absent,
    Text(Seq<char>),
    Other,
}

impl View for ManifestField {
    type V = FieldView;

    open spec fn view(&self) -> FieldView {
        match self {
            ManifestField::Absent => FieldView::Absent,
            ManifestField::Text(s) => FieldView::Text(s@),
            ManifestField::Other => FieldView::Other,
        }
    }
}

/// What the detector reads of `package.json`: its `name` field, and the
/// entries of its `scripts` object (`None` when there is no such object) as
/// (script name, whether the command is a string), in the order the JSON
/// map yields them.
pub struct PackageManifest {
    pub name: ManifestField,
    pub scripts: Option<Vec<(String, bool)>>,
}

pub struct ManifestView {
    pub name: FieldView,
    pub scripts: Option<Seq<(Seq<char>, bool)>>,
}

impl View for PackageManifest {
    type V = ManifestView;

    open spec fn view(&self) -> ManifestView {
        ManifestView {
            name: self.name@,
            scripts: match self.scripts {
                Some(v) => Some(v@.map_values(|e: (String, bool)| (e.0@, e.1))),
                None => None,
            },
        }
    }
}

/// What `serde_json` reads in `text` as a JSON value, seen as a
/// `package.json`: its top-level `name` field and the entries of its
/// `scripts` object; or, when `text` is not JSON, the message of the error
/// it reports.
pub uninterp spec fn json_manifest(text: Seq<char>) -> Result<ManifestView, Seq<char>>;

/// Reads `text` as JSON and picks out what the detector needs.
///
/// Calls `serde_json::from_str::<serde_json::Value>`, then takes the
/// value's `name` and `scripts` fields apart; the contract names the
/// outcome, which depends on the text alone.
#[verifier::external_body]
pub(crate) fn read_json_manifest(text: &str) -> (r: Result<PackageManifest, String>)
    ensures
        match r {
            Ok(m) => json_manifest(text@) == Ok::<ManifestView, Seq<char>>(m@),
            Err(e) => json_manifest(text@) == Err::<ManifestView, Seq<char>>(e@),
        },
{
    match serde_json::from_str::<serde_json::Value>(text) {
        Ok(v) => Ok(PackageManifest {
            name: match v.get("name") {
                None => ManifestField::Absent,
                Some(serde_json::Value::String(s)) => ManifestField::Text(s.clone()),
                Some(_) => ManifestField::Other,
            },
            scripts: match v.get("scripts") {
                Some(serde_json::Value::Object(o)) => Some(o.iter().map(|(k, c)| (k.clone(), c.is_string())).collect()),
                _ => None,
            },
        }),
        Err(e) => Err(e.to_string()),
    }
}

/// The outcome of reading `package.json` from the project folder.
pub enum PackageJson {
    /// No `package.json` (not a Node project): not an error.
    Missing,
    /// It exists but could not be read; carries the reason.
    Unreadable(String),
    /// Its text.
    Read(String),
}

pub struct ScriptView {
    pub name: Seq<char>,
    pub command: Seq<char>,
}

pub open spec fn scripts_view(v: Seq<DetectedScript>) -> Seq<ScriptView> {
    v.map_values(|s: DetectedScript| ScriptView { name: s.name@, command: s.command@ })
}

/// The offered scripts: every entry whose command is a string, run through
/// the package manager (`<pm> run <name>`).
pub open spec fn offered_scripts(pm: Seq<char>, entries: Seq<(Seq<char>, bool)>) -> Seq<ScriptView>
    decreases entries.len(),
{
    if entries.len() == 0 {
        seq![]
    } else {
        let rest = offered_scripts(pm, entries.drop_last());
        let e = entries.last();
        if e.1 { rest.push(ScriptView { name: e.0, command: pm + " run "@ + e.0 }) } else { rest }
    }
}

/// The config detected for a project folder: `package_manager` is what its
/// lockfiles point to, `package_json` what reading its `package.json` gave.
pub fn detect_scripts(package_manager: &str, package_json: PackageJson) -> (r: Result<DetectedConfig, AppError>)
    ensures
        match package_json {
            PackageJson::Missing => r matches Ok(c) && c.name is None && c.package_manager@ == package_manager@
                && c.scripts@.len() == 0,
            PackageJson::Unreadable(why) => r matches Err(e) && e.code == "DETECT_IO_ERROR"
                && e.message@ == "No se pudo leer package.json: "@ + why@,
            PackageJson::Read(text) => match json_manifest(text@) {
                Err(why) => r matches Err(e) && e.code == "DETECT_PKG_JSON_INVALID"
                    && e.message@ == "package.json inválido: "@ + why,
                Ok(m) => r matches Ok(c) && c.package_manager@ == package_manager@
                    && (match m.name {
                        FieldView::Text(n) => c.name matches Some(cn) && cn@ == n,
                        _ => c.name is None,
                    })
                    && scripts_view(c.scripts@) == match m.scripts {
                        Some(entries) => offered_scripts(package_manager@, entries),
                        None => Seq::<ScriptView>::empty(),
                    },
            },
        },
{
    let text = match package_json {
        PackageJson::Missing => {
            return Ok(DetectedConfig { name: None, package_manager: to_owned_string(package_manager), scripts: Vec::new() });
        },
        PackageJson::Unreadable(why) => {
            return Err(AppError::new(
                MODULE,
                "DETECT_IO_ERROR",
                String::from_str("No se pudo leer package.json: ").concat(why.as_str()),
            ));
        },
        PackageJson::Read(text) => text,
    };
    let manifest = match read_json_manifest(text.as_str()) {
        Ok(m) => m,
        Err(why) => {
            return Err(AppError::new(
                MODULE,
                "DETECT_PKG_JSON_INVALID",
                String::from_str("package.json inválido: ").concat(why.as_str()),
            ));
        },
    };
    let ghost mv = manifest@;
    let name = match manifest.name {
        ManifestField::Text(n) => Some(n),
        _ => None,
    };
    let mut scripts: Vec<DetectedScript> = Vec::new();
    match &manifest.scripts {
        Some(entries) => {
            let ghost es = entries@.map_values(|e: (String, bool)| (e.0@, e.1));
            let mut i: usize = 0;
            while i < entries.len()
                invariant
                    i <= entries@.len(),
                    es == entries@.map_values(|e: (String, bool)| (e.0@, e.1)),
                    scripts_view(scripts@) == offered_scripts(package_manager@, es.take(i as int)),
                decreases entries@.len() - i,
            {
                proof {
                    assert(es.take(i + 1).drop_last() =~= es.take(i as int));
                    assert(es.take(i + 1).last() == (entries@[i as int].0@, entries@[i as int].1));
                }
                let ghost before = scripts@;
                let e = &entries[i];
                if e.1 {
                    let command = to_owned_string(package_manager).concat(" run ").concat(e.0.as_str());
                    scripts.push(DetectedScript { name: e.0.clone(), command });
                    assert(scripts_view(scripts@) =~= scripts_view(before).push(
                        ScriptView { name: e.0@, command: package_manager@ + " run "@ + e.0@ },
                    ));
                }
                i += 1;
            }
            assert(es.take(entries@.len() as int) =~= es);
        },
        None => {
            assert(scripts_view(scripts@) =~= Seq::<ScriptView>::empty());
        },
    }
    Ok(DetectedConfig { name, package_manager: to_owned_string(package_manager), scripts })
}

} // verus!
