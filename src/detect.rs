//! Project-type detection from the marker files found in a project directory.

use vstd::prelude::*;

use crate::json::{json_member_keys, json_well_formed, member_keys_of};

verus! {

/// The package manager or toolchain that runs a project.
#[derive(Debug, Clone, Copy, PartialEq, Eq, Structural)]
pub enum PackageManager {
    Pnpm,
    Yarn,
    Bun,
    Npm,
    Cargo,
    Go,
    Python,
}

/// The broad kind of a project.
#[derive(Debug, Clone, Copy, PartialEq, Eq, Structural)]
pub enum ProjectType {
    JavaScript,
    Rust,
    Go,
    Python,
    Unknown,
}

/// What detection found out about a project.
#[derive(Debug, Clone)]
pub struct DetectedProject {
    pub package_manager: Option<PackageManager>,
    pub run_command: Option<String>,
    pub project_type: ProjectType,
}

/// The abstract value of a `DetectedProject`: its command as a character sequence.
pub struct DetectedView {
    pub package_manager: Option<PackageManager>,
    pub run_command: Option<Seq<char>>,
    pub project_type: ProjectType,
}

pub open spec fn opt_string_view(s: Option<String>) -> Option<Seq<char>> {
    match s {
        Some(c) => Some(c@),
        None => None,
    }
}

impl View for DetectedProject {
    type V = DetectedView;

    open spec fn view(&self) -> DetectedView {
        DetectedView {
            package_manager: self.package_manager,
            run_command: opt_string_view(self.run_command),
            project_type: self.project_type,
        }
    }
}

/// Which of the files that detection looks at exist in a project directory.
#[derive(Debug, Clone, Copy, Default)]
pub struct ProjectMarkers {
    pub package_json: bool,
    pub pnpm_lock: bool,
    pub yarn_lock: bool,
    pub bun_lockb: bool,
    pub cargo_toml: bool,
    pub go_mod: bool,
    pub manage_py: bool,
    pub main_py: bool,
}

/// Why detection could not classify a project.
#[derive(Debug, Clone, Copy, PartialEq, Eq, Structural)]
pub enum DetectError {
    /// `package.json` exists but could not be read.
    Unreadable,
    /// `package.json` is not the JSON object that detection expects.
    InvalidPackageJson,
}

pub open spec fn manager_name(pm: PackageManager) -> Seq<char> {
    match pm {
        PackageManager::Pnpm => "pnpm"@,
        PackageManager::Yarn => "yarn"@,
        PackageManager::Bun => "bun"@,
        PackageManager::Npm => "npm"@,
        PackageManager::Cargo => "cargo"@,
        PackageManager::Go => "go"@,
        PackageManager::Python => "python"@,
    }
}

impl PackageManager {
    /// The command-line name of the package manager.
    pub fn as_str(&self) -> (r: &'static str)
        ensures
            r@ == manager_name(*self),
    {
        match self {
            PackageManager::Pnpm => "pnpm",
            PackageManager::Yarn => "yarn",
            PackageManager::Bun => "bun",
            PackageManager::Npm => "npm",
            PackageManager::Cargo => "cargo",
            PackageManager::Go => "go",
            PackageManager::Python => "python",
        }
    }
}

/// The JavaScript package manager implied by the lock files present.
pub open spec fn lock_manager(m: ProjectMarkers) -> PackageManager {
    if m.pnpm_lock {
        PackageManager::Pnpm
    } else if m.yarn_lock {
        PackageManager::Yarn
    } else if m.bun_lockb {
        PackageManager::Bun
    } else {
        PackageManager::Npm
    }
}

/// The first of `dev`, `start`, `serve`, `watch` that names a script.
pub open spec fn preferred_script(names: Seq<Seq<char>>) -> Option<Seq<char>> {
    if names.contains("dev"@) {
        Some("dev"@)
    } else if names.contains("start"@) {
        Some("start"@)
    } else if names.contains("serve"@) {
        Some("serve"@)
    } else if names.contains("watch"@) {
        Some("watch"@)
    } else {
        None
    }
}

pub open spec fn run_line(pm: PackageManager, script: Seq<char>) -> Seq<char> {
    manager_name(pm) + " run "@ + script
}

pub open spec fn names_of(v: Seq<String>) -> Seq<Seq<char>> {
    v.map_values(|s: String| s@)
}

/// Detection of a JavaScript project, given the names of its scripts if it has any.
pub open spec fn js_detection(m: ProjectMarkers, scripts: Option<Seq<Seq<char>>>) -> DetectedView {
    let pm = lock_manager(m);
    DetectedView {
        package_manager: Some(pm),
        run_command: match scripts {
            Some(names) => match preferred_script(names) {
                Some(s) => Some(run_line(pm, s)),
                None => None,
            },
            None => None,
        },
        project_type: ProjectType::JavaScript,
    }
}

/// Detection of a project without `package.json`.
pub open spec fn fixed_detection(m: ProjectMarkers) -> DetectedView {
    if m.cargo_toml {
        DetectedView {
            package_manager: Some(PackageManager::Cargo),
            run_command: Some("cargo run"@),
            project_type: ProjectType::Rust,
        }
    } else if m.go_mod {
        DetectedView {
            package_manager: Some(PackageManager::Go),
            run_command: Some("go run ."@),
            project_type: ProjectType::Go,
        }
    } else if m.manage_py {
        DetectedView {
            package_manager: Some(PackageManager::Python),
            run_command: Some("python manage.py runserver"@),
            project_type: ProjectType::Python,
        }
    } else if m.main_py {
        DetectedView {
            package_manager: Some(PackageManager::Python),
            run_command: Some("python main.py"@),
            project_type: ProjectType::Python,
        }
    } else {
        DetectedView { package_manager: None, run_command: None, project_type: ProjectType::Unknown }
    }
}

fn has_name(names: &Vec<String>, target: &str) -> (r: bool)
    ensures
        r == names_of(names@).contains(target@),
{
    let want = String::from_str(target);
    let mut i: usize = 0;
    while i < names.len()
        invariant
            want@ == target@,
            i <= names@.len(),
            forall|j: int| 0 <= j < i ==> (#[trigger] names@[j])@ != target@,
        decreases names@.len() - i,
    {
        if names[i] == want {
            assert(names_of(names@)[i as int] == target@);
            return true;
        }
        i = i + 1;
    }
    assert(!names_of(names@).contains(target@)) by {
        if names_of(names@).contains(target@) {
            let j = choose|j: int| 0 <= j < names_of(names@).len() && names_of(names@)[j] == target@;
            assert(names@[j]@ == target@);
        }
    }
    false
}

fn pick_script(names: &Vec<String>) -> (r: Option<&'static str>)
    ensures
        match r {
            Some(s) => preferred_script(names_of(names@)) == Some(s@),
            None => preferred_script(names_of(names@)).is_none(),
        },
{
    if has_name(names, "dev") {
        Some("dev")
    } else if has_name(names, "start") {
        Some("start")
    } else if has_name(names, "serve") {
        Some("serve")
    } else if has_name(names, "watch") {
        Some("watch")
    } else {
        None
    }
}

fn js_manager(markers: &ProjectMarkers) -> (r: PackageManager)
    ensures
        r == lock_manager(*markers),
{
    if markers.pnpm_lock {
        PackageManager::Pnpm
    } else if markers.yarn_lock {
        PackageManager::Yarn
    } else if markers.bun_lockb {
        PackageManager::Bun
    } else {
        PackageManager::Npm
    }
}

fn fixed(pm: PackageManager, command: &str, project_type: ProjectType) -> (r: DetectedProject)
    ensures
        r@ == (DetectedView {
            package_manager: Some(pm),
            run_command: Some(command@),
            project_type,
        }),
{
    DetectedProject {
        package_manager: Some(pm),
        run_command: Some(String::from_str(command)),
        project_type,
    }
}

/// Classifies a project from its marker files and, for a JavaScript project,
/// the names of the scripts its `package.json` declares (`None` when it has no
/// `scripts` table).
pub fn detect_with_scripts(markers: &ProjectMarkers, scripts: Option<&Vec<String>>) -> (r: DetectedProject)
    ensures
        r@ == (if markers.package_json {
            js_detection(
                *markers,
                match scripts {
                    Some(v) => Some(names_of(v@)),
                    None => None,
                },
            )
        } else {
            fixed_detection(*markers)
        }),
{
    if markers.package_json {
        let pm = js_manager(markers);
        let run_command = match scripts {
            Some(names) => match pick_script(names) {
                Some(s) => {
                    let line = String::from_str(pm.as_str()).concat(" run ").concat(s);
                    Some(line)
                },
                None => None,
            },
            None => None,
        };
        DetectedProject {
            package_manager: Some(pm),
            run_command,
            project_type: ProjectType::JavaScript,
        }
    } else if markers.cargo_toml {
        fixed(PackageManager::Cargo, "cargo run", ProjectType::Rust)
    } else if markers.go_mod {
        fixed(PackageManager::Go, "go run .", ProjectType::Go)
    } else if markers.manage_py {
        fixed(PackageManager::Python, "python manage.py runserver", ProjectType::Python)
    } else if markers.main_py {
        fixed(PackageManager::Python, "python main.py", ProjectType::Python)
    } else {
        DetectedProject { package_manager: None, run_command: None, project_type: ProjectType::Unknown }
    }
}

/// The script names of a `package.json` text: `None` when it has no
/// `scripts` member or that member is `null`. The text must be a JSON object
/// whose `scripts`, if any, is an object of strings.
pub fn package_scripts(text: &str) -> (r: Result<Option<Vec<String>>, DetectError>)
    ensures
        match member_keys_of(text@, "scripts"@) {
            None => r == Err::<Option<Vec<String>>, DetectError>(DetectError::InvalidPackageJson),
            Some(None) => r matches Ok(None),
            Some(Some(ks)) => r matches Ok(Some(v)) && names_of(v@) == ks,
        },
        !json_well_formed(text@) ==> r == Err::<Option<Vec<String>>, DetectError>(
            DetectError::InvalidPackageJson,
        ),
{
    match json_member_keys(text, "scripts") {
        None => Err(DetectError::InvalidPackageJson),
        Some(None) => Ok(None),
        Some(Some(names)) => Ok(Some(names)),
    }
}

/// Classifies a project from its marker files and the text of its
/// `package.json` (`None` when that file could not be read).
pub fn detect(markers: &ProjectMarkers, package_json: Option<&str>) -> (r: Result<DetectedProject, DetectError>)
    ensures
        !markers.package_json ==> (r matches Ok(d) && d@ == fixed_detection(*markers)),
        markers.package_json && package_json.is_none() ==> r == Err::<DetectedProject, DetectError>(
            DetectError::Unreadable,
        ),
        markers.package_json && (package_json matches Some(t) && !json_well_formed(t@)) ==> r
            == Err::<DetectedProject, DetectError>(DetectError::InvalidPackageJson),
        markers.package_json ==> match package_json {
            Some(t) => match member_keys_of(t@, "scripts"@) {
                None => r == Err::<DetectedProject, DetectError>(DetectError::InvalidPackageJson),
                Some(scripts) => r matches Ok(d) && d@ == js_detection(*markers, scripts),
            },
            None => true,
        },
{
    if !markers.package_json {
        return Ok(detect_with_scripts(markers, None));
    }
    match package_json {
        None => Err(DetectError::Unreadable),
        Some(text) => match package_scripts(text) {
            Ok(scripts) => {
                let d = match &scripts {
                    Some(v) => detect_with_scripts(markers, Some(v)),
                    None => detect_with_scripts(markers, None),
                };
                Ok(d)
            },
            Err(e) => Err(e),
        },
    }
}

} // verus!
