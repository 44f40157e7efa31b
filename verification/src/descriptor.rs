//! The project descriptor, a `.kproject` file.
//!
//! A descriptor is a header line, `kairo-project 1` or `kairo-project 2`, and one
//! statement on each further line. Format 1 names the project, its asset manifest
//! and its startup scene; format 2 adds what the engine, the renderer and the
//! packager need.
use vstd::hash_set::StringHashSet;
use vstd::prelude::*;
use vstd::std_specs::cmp::PartialEqSpecImpl;

use crate::path::{
    components, dot_dot, is_absolute, is_same_option, is_same_path, relative_path_fault,
    same_option, same_path, same_texts, validate_relative_path,
};
use crate::text::{
    blank, byte_length, copy_list, decimal, decimal_text, encoded_length, is_blank, is_single_line,
    lemma_texts_push, lines, lines_of, single_line, text_eq, texts,
};
use crate::token::{tokenize, tokens};

verus! {

/// The largest descriptor that is read, in bytes.
pub const MAX_PROJECT_BYTES: u64 = 1_048_576;

/// A way to build and package the project.
#[derive(Debug)]
pub struct ProjectBuildProfile {
    pub name: String,
    /// `development` or `release`.
    pub kind: String,
    /// Where the package goes, relative to the project root.
    pub output_directory: String,
}

/// What a project descriptor says. Paths are relative to the project root.
#[derive(Debug)]
pub struct ProjectDescriptor {
    pub name: String,
    pub asset_manifest: String,
    pub startup_scene: String,
    pub engine_version: String,
    pub input_map: String,
    pub rendering_profile: String,
    pub graphics_backend: String,
    /// The project's own player, if it has one.
    pub runtime_executable: Option<String>,
    pub enabled_plugins: Vec<String>,
    pub build_profiles: Vec<ProjectBuildProfile>,
}

pub struct ProfileView {
    pub name: Seq<char>,
    pub kind: Seq<char>,
    pub output_directory: Seq<char>,
}

pub struct DescriptorView {
    pub name: Seq<char>,
    pub asset_manifest: Seq<char>,
    pub startup_scene: Seq<char>,
    pub engine_version: Seq<char>,
    pub input_map: Seq<char>,
    pub rendering_profile: Seq<char>,
    pub graphics_backend: Seq<char>,
    pub runtime_executable: Option<Seq<char>>,
    pub enabled_plugins: Seq<Seq<char>>,
    pub build_profiles: Seq<ProfileView>,
}

impl View for ProjectBuildProfile {
    type V = ProfileView;

    open spec fn view(&self) -> ProfileView {
        ProfileView {
            name: self.name@,
            kind: self.kind@,
            output_directory: self.output_directory@,
        }
    }
}

/// The text in an option, if there is one.
pub open spec fn opt_text(o: Option<String>) -> Option<Seq<char>> {
    match o {
        Some(s) => Some(s@),
        None => None,
    }
}

pub open spec fn profile_views(v: Seq<ProjectBuildProfile>) -> Seq<ProfileView> {
    v.map_values(|p: ProjectBuildProfile| p@)
}

impl View for ProjectDescriptor {
    type V = DescriptorView;

    open spec fn view(&self) -> DescriptorView {
        DescriptorView {
            name: self.name@,
            asset_manifest: self.asset_manifest@,
            startup_scene: self.startup_scene@,
            engine_version: self.engine_version@,
            input_map: self.input_map@,
            rendering_profile: self.rendering_profile@,
            graphics_backend: self.graphics_backend@,
            runtime_executable: opt_text(self.runtime_executable),
            enabled_plugins: texts(self.enabled_plugins@),
            build_profiles: profile_views(self.build_profiles@),
        }
    }
}

impl Clone for ProjectBuildProfile {
    fn clone(&self) -> (r: ProjectBuildProfile)
        ensures
            r@ == self@,
    {
        ProjectBuildProfile {
            name: self.name.clone(),
            kind: self.kind.clone(),
            output_directory: self.output_directory.clone(),
        }
    }
}

fn copy_profiles(all: &Vec<ProjectBuildProfile>) -> (r: Vec<ProjectBuildProfile>)
    ensures
        profile_views(r@) == profile_views(all@),
{
    let mut r: Vec<ProjectBuildProfile> = Vec::new();
    let mut i: usize = 0;
    while i < all.len()
        invariant
            i <= all.len(),
            r@.len() == i,
            forall|j: int| 0 <= j < i ==> r@[j]@ == all@[j]@,
        decreases all.len() - i,
    {
        r.push(all[i].clone());
        i += 1;
    }
    assert(profile_views(r@) =~= profile_views(all@));
    r
}

impl Clone for ProjectDescriptor {
    fn clone(&self) -> (r: ProjectDescriptor)
        ensures
            r@ == self@,
    {
        ProjectDescriptor {
            name: self.name.clone(),
            asset_manifest: self.asset_manifest.clone(),
            startup_scene: self.startup_scene.clone(),
            engine_version: self.engine_version.clone(),
            input_map: self.input_map.clone(),
            rendering_profile: self.rendering_profile.clone(),
            graphics_backend: self.graphics_backend.clone(),
            runtime_executable: match &self.runtime_executable {
                Some(runtime) => Some(runtime.clone()),
                None => None,
            },
            enabled_plugins: copy_list(&self.enabled_plugins),
            build_profiles: copy_profiles(&self.build_profiles),
        }
    }
}

/// The same profile: the output directory is the same path.
pub open spec fn is_same_profile(a: ProfileView, b: ProfileView) -> bool {
    &&& a.name == b.name
    &&& a.kind == b.kind
    &&& is_same_path(a.output_directory, b.output_directory)
}

impl PartialEqSpecImpl for ProjectBuildProfile {
    open spec fn obeys_eq_spec() -> bool {
        true
    }

    open spec fn eq_spec(&self, other: &ProjectBuildProfile) -> bool {
        is_same_profile(self@, other@)
    }
}

impl PartialEq for ProjectBuildProfile {
    fn eq(&self, other: &ProjectBuildProfile) -> (r: bool) {
        text_eq(self.name.as_str(), other.name.as_str()) && text_eq(
            self.kind.as_str(),
            other.kind.as_str(),
        ) && same_path(self.output_directory.as_str(), other.output_directory.as_str())
    }
}

impl Eq for ProjectBuildProfile {

}

pub open spec fn are_same_profiles(a: Seq<ProfileView>, b: Seq<ProfileView>) -> bool {
    a.len() == b.len() && forall|i: int|
        0 <= i < a.len() ==> is_same_profile(#[trigger] a[i], b[i])
}

/// The same descriptor: paths are the same paths, all else is the same text.
pub open spec fn is_same_descriptor(a: DescriptorView, b: DescriptorView) -> bool {
    &&& a.name == b.name
    &&& is_same_path(a.asset_manifest, b.asset_manifest)
    &&& is_same_path(a.startup_scene, b.startup_scene)
    &&& a.engine_version == b.engine_version
    &&& is_same_path(a.input_map, b.input_map)
    &&& a.rendering_profile == b.rendering_profile
    &&& a.graphics_backend == b.graphics_backend
    &&& is_same_option(a.runtime_executable, b.runtime_executable)
    &&& a.enabled_plugins == b.enabled_plugins
    &&& are_same_profiles(a.build_profiles, b.build_profiles)
}

fn same_profiles(a: &Vec<ProjectBuildProfile>, b: &Vec<ProjectBuildProfile>) -> (r: bool)
    ensures
        r == are_same_profiles(profile_views(a@), profile_views(b@)),
{
    if a.len() != b.len() {
        return false;
    }
    let ghost x = profile_views(a@);
    let ghost y = profile_views(b@);
    let mut i: usize = 0;
    while i < a.len()
        invariant
            i <= a.len(),
            a.len() == b.len(),
            x == profile_views(a@),
            y == profile_views(b@),
            forall|j: int| 0 <= j < i ==> is_same_profile(#[trigger] x[j], y[j]),
        decreases a.len() - i,
    {
        assert(x[i as int] == a@[i as int]@ && y[i as int] == b@[i as int]@);
        if !(a[i] == b[i]) {
            return false;
        }
        i += 1;
    }
    true
}

impl PartialEqSpecImpl for ProjectDescriptor {
    open spec fn obeys_eq_spec() -> bool {
        true
    }

    open spec fn eq_spec(&self, other: &ProjectDescriptor) -> bool {
        is_same_descriptor(self@, other@)
    }
}

impl PartialEq for ProjectDescriptor {
    fn eq(&self, other: &ProjectDescriptor) -> (r: bool) {
        text_eq(self.name.as_str(), other.name.as_str()) && same_path(
            self.asset_manifest.as_str(),
            other.asset_manifest.as_str(),
        ) && same_path(self.startup_scene.as_str(), other.startup_scene.as_str()) && text_eq(
            self.engine_version.as_str(),
            other.engine_version.as_str(),
        ) && same_path(self.input_map.as_str(), other.input_map.as_str()) && text_eq(
            self.rendering_profile.as_str(),
            other.rendering_profile.as_str(),
        ) && text_eq(self.graphics_backend.as_str(), other.graphics_backend.as_str())
            && same_option(&self.runtime_executable, &other.runtime_executable) && same_texts(
            &self.enabled_plugins,
            &other.enabled_plugins,
        ) && same_profiles(&self.build_profiles, &other.build_profiles)
    }
}

impl Eq for ProjectDescriptor {

}

// ---------------------------------------------------------------------------
// Statements
// ---------------------------------------------------------------------------
/// The statements read so far.
pub struct Statements {
    /// The format in the header; none before the header.
    pub version: Option<u32>,
    pub name: Option<Seq<char>>,
    pub assets: Option<Seq<char>>,
    pub startup_scene: Option<Seq<char>>,
    pub engine_version: Option<Seq<char>>,
    pub input_map: Option<Seq<char>>,
    pub rendering_profile: Option<Seq<char>>,
    pub graphics_backend: Option<Seq<char>>,
    pub runtime_executable: Option<Seq<char>>,
    pub plugins: Seq<Seq<char>>,
    pub profiles: Seq<ProfileView>,
}

pub open spec fn no_statements() -> Statements {
    Statements {
        version: None,
        name: None,
        assets: None,
        startup_scene: None,
        engine_version: None,
        input_map: None,
        rendering_profile: None,
        graphics_backend: None,
        runtime_executable: None,
        plugins: seq![],
        profiles: seq![],
    }
}

/// The statements of format 1.
pub open spec fn is_basic_keyword(k: Seq<char>) -> bool {
    k == "name"@ || k == "assets"@ || k == "startup-scene"@
}

/// The statements that format 2 adds.
pub open spec fn is_extended_keyword(k: Seq<char>) -> bool {
    ||| k == "engine-version"@
    ||| k == "input-map"@
    ||| k == "rendering-profile"@
    ||| k == "graphics-backend"@
    ||| k == "runtime-executable"@
    ||| k == "plugin"@
    ||| k == "build-profile"@
}

pub open spec fn header_message(line_number: nat) -> Seq<char> {
    decimal(line_number) + ":1: expected supported 'kairo-project 1|2' header"@
}

pub open spec fn basic_message(line_number: nat, keyword: Seq<char>) -> Seq<char> {
    decimal(line_number) + ":1: duplicate or malformed '"@ + keyword + "' statement"@
}

pub open spec fn extended_message(line_number: nat, keyword: Seq<char>) -> Seq<char> {
    decimal(line_number) + ":1: malformed or version-incompatible '"@ + keyword + "' statement"@
}

pub open spec fn unknown_message(line_number: nat, keyword: Seq<char>) -> Seq<char> {
    decimal(line_number) + ":1: unknown statement '"@ + keyword + "'"@
}

/// The format that a header line states, if it is one.
pub open spec fn header_version(tokens: Seq<Seq<char>>) -> Option<u32> {
    if tokens.len() == 2 && tokens[0] == "kairo-project"@ {
        if tokens[1] == "1"@ {
            Some(1u32)
        } else if tokens[1] == "2"@ {
            Some(2u32)
        } else {
            None
        }
    } else {
        None
    }
}

/// The statements with the one on a further line, or the message that refuses it.
/// A basic statement and a single-valued extended one may stand only once.
pub open spec fn with_statement(
    st: Statements,
    tokens: Seq<Seq<char>>,
    line_number: nat,
) -> Result<Statements, Seq<char>> {
    let k = tokens[0];
    let value = tokens[1];
    let one = tokens.len() == 2;
    let extended = one && st.version == Some(2u32);
    if tokens.len() == 0 {
        Ok(st)
    } else if st.version is None {
        match header_version(tokens) {
            Some(v) => Ok(Statements { version: Some(v), ..st }),
            None => Err(header_message(line_number)),
        }
    } else if k == "name"@ && one && st.name is None {
        Ok(Statements { name: Some(value), ..st })
    } else if k == "assets"@ && one && st.assets is None {
        Ok(Statements { assets: Some(value), ..st })
    } else if k == "startup-scene"@ && one && st.startup_scene is None {
        Ok(Statements { startup_scene: Some(value), ..st })
    } else if k == "engine-version"@ && extended && st.engine_version is None {
        Ok(Statements { engine_version: Some(value), ..st })
    } else if k == "input-map"@ && extended && st.input_map is None {
        Ok(Statements { input_map: Some(value), ..st })
    } else if k == "rendering-profile"@ && extended && st.rendering_profile is None {
        Ok(Statements { rendering_profile: Some(value), ..st })
    } else if k == "graphics-backend"@ && extended && st.graphics_backend is None {
        Ok(Statements { graphics_backend: Some(value), ..st })
    } else if k == "runtime-executable"@ && extended && st.runtime_executable is None {
        Ok(Statements { runtime_executable: Some(value), ..st })
    } else if k == "plugin"@ && extended {
        Ok(Statements { plugins: st.plugins.push(value), ..st })
    } else if k == "build-profile"@ && tokens.len() == 4 && st.version == Some(2u32) {
        Ok(
            Statements {
                profiles: st.profiles.push(
                    ProfileView {
                        name: tokens[1],
                        kind: tokens[2],
                        output_directory: tokens[3],
                    },
                ),
                ..st
            },
        )
    } else if is_basic_keyword(k) {
        Err(basic_message(line_number, k))
    } else if is_extended_keyword(k) {
        Err(extended_message(line_number, k))
    } else {
        Err(unknown_message(line_number, k))
    }
}

/// The statements with those of the lines from `at` on, or the first message.
pub open spec fn statements_from(all: Seq<Seq<char>>, at: int, st: Statements) -> Result<
    Statements,
    Seq<char>,
>
    decreases all.len() - at,
{
    if at >= all.len() {
        Ok(st)
    } else {
        match tokens(all[at], (at + 1) as nat) {
            Err(e) => Err(e),
            Ok(ts) => match with_statement(st, ts, (at + 1) as nat) {
                Err(e) => Err(e),
                Ok(next) => statements_from(all, at + 1, next),
            },
        }
    }
}

// ---------------------------------------------------------------------------
// The descriptor
// ---------------------------------------------------------------------------
pub open spec fn default_profiles() -> Seq<ProfileView> {
    seq![
        ProfileView {
            name: "Development"@,
            kind: "development"@,
            output_directory: "Build/Development"@,
        },
        ProfileView {
            name: "Release"@,
            kind: "release"@,
            output_directory: "Build/Release"@,
        },
    ]
}

pub open spec fn or_text(o: Option<Seq<char>>, default: Seq<char>) -> Seq<char> {
    match o {
        Some(t) => t,
        None => default,
    }
}

/// The descriptor that the statements make, or what they lack.
pub open spec fn assembled(st: Statements) -> Result<DescriptorView, Seq<char>> {
    if st.version is None {
        Err("1:1: missing kairo-project header"@)
    } else if st.version == Some(2u32) && (st.engine_version is None || st.input_map is None
        || st.rendering_profile is None || st.profiles.len() == 0) {
        Err(
            "project format 2 requires engine-version, input-map, rendering-profile, and build-profile statements"@,
        )
    } else if st.name is None {
        Err("project requires a name statement"@)
    } else if st.assets is None {
        Err("project requires an assets statement"@)
    } else if st.startup_scene is None {
        Err("project requires a startup-scene statement"@)
    } else {
        Ok(
            DescriptorView {
                name: st.name->0,
                asset_manifest: st.assets->0,
                startup_scene: st.startup_scene->0,
                engine_version: or_text(st.engine_version, "0.1.0"@),
                input_map: or_text(st.input_map, "Config/Input.kinput"@),
                rendering_profile: or_text(st.rendering_profile, "desktop"@),
                graphics_backend: or_text(st.graphics_backend, "auto"@),
                runtime_executable: st.runtime_executable,
                enabled_plugins: st.plugins,
                build_profiles: if st.profiles.len() == 0 {
                    default_profiles()
                } else {
                    st.profiles
                },
            },
        )
    }
}

/// The first of two faults.
pub open spec fn first_fault(a: Option<Seq<char>>, b: Option<Seq<char>>) -> Option<Seq<char>> {
    if a is Some {
        a
    } else {
        b
    }
}

pub open spec fn fault_if(wrong: bool, message: Seq<char>) -> Option<Seq<char>> {
    if wrong {
        Some(message)
    } else {
        None
    }
}

pub open spec fn is_graphics_backend(s: Seq<char>) -> bool {
    s == "auto"@ || s == "vulkan"@ || s == "metal"@ || s == "d3d12"@ || s == "opengl"@
}

pub open spec fn is_profile_kind(s: Seq<char>) -> bool {
    s == "development"@ || s == "release"@
}

/// Another profile before `at` has the same name.
pub open spec fn profile_name_taken(all: Seq<ProfileView>, at: int) -> bool {
    exists|j: int| 0 <= j < at && #[trigger] all[j].name == all[at].name
}

/// What is wrong with the profiles from `at` on.
pub open spec fn profiles_fault(all: Seq<ProfileView>, at: int) -> Option<Seq<char>>
    decreases all.len() - at,
{
    if at >= all.len() {
        None
    } else {
        first_fault(
            fault_if(
                is_blank(all[at].name) || !is_profile_kind(all[at].kind),
                "build profiles require a name and development or release kind"@,
            ),
            first_fault(
                relative_path_fault(all[at].output_directory, "build profile output"@),
                first_fault(
                    fault_if(profile_name_taken(all, at), "build profile names must be unique"@),
                    profiles_fault(all, at + 1),
                ),
            ),
        )
    }
}

/// Every plugin has an identifier of its own.
pub open spec fn plugins_distinct(plugins: Seq<Seq<char>>) -> bool {
    forall|i: int|
        0 <= i < plugins.len() ==> !is_blank(#[trigger] plugins[i]) && !plugins.take(i).contains(
            plugins[i],
        )
}

/// What is wrong with a descriptor: the first of its faults.
pub open spec fn descriptor_fault(d: DescriptorView) -> Option<Seq<char>> {
    first_fault(
        fault_if(
            is_blank(d.name) || !is_single_line(d.name),
            "project name must be non-empty and single-line"@,
        ),
        first_fault(
            relative_path_fault(d.asset_manifest, "assets"@),
            first_fault(
                relative_path_fault(d.startup_scene, "startup-scene"@),
                first_fault(
                    relative_path_fault(d.input_map, "input-map"@),
                    first_fault(
                        match d.runtime_executable {
                            Some(r) => relative_path_fault(r, "runtime-executable"@),
                            None => None,
                        },
                        first_fault(
                            fault_if(
                                is_same_path(d.asset_manifest, d.startup_scene),
                                "asset manifest and startup scene must be different"@,
                            ),
                            first_fault(
                                fault_if(
                                    is_blank(d.engine_version) || is_blank(d.rendering_profile),
                                    "engine version and rendering profile must be non-empty"@,
                                ),
                                first_fault(
                                    fault_if(
                                        !is_graphics_backend(d.graphics_backend),
                                        "graphics backend must be auto, vulkan, metal, d3d12, or opengl"@,
                                    ),
                                    first_fault(
                                        profiles_fault(d.build_profiles, 0),
                                        fault_if(
                                            !plugins_distinct(d.enabled_plugins),
                                            "plugin identifiers must be non-empty and unique"@,
                                        ),
                                    ),
                                ),
                            ),
                        ),
                    ),
                ),
            ),
        ),
    )
}

/// The descriptor that a text writes, or the message that refuses it.
pub open spec fn project_of(source: Seq<char>) -> Result<DescriptorView, Seq<char>> {
    if byte_length(source) > MAX_PROJECT_BYTES {
        Err("project descriptor exceeds the 1 MiB safety limit"@)
    } else {
        match statements_from(lines(source), 0, no_statements()) {
            Err(e) => Err(e),
            Ok(st) => match assembled(st) {
                Err(e) => Err(e),
                Ok(d) => match descriptor_fault(d) {
                    Some(e) => Err(e),
                    None => Ok(d),
                },
            },
        }
    }
}

// ---------------------------------------------------------------------------
// Reading
// ---------------------------------------------------------------------------
struct Draft {
    version: Option<u32>,
    name: Option<String>,
    assets: Option<String>,
    startup_scene: Option<String>,
    engine_version: Option<String>,
    input_map: Option<String>,
    rendering_profile: Option<String>,
    graphics_backend: Option<String>,
    runtime_executable: Option<String>,
    plugins: Vec<String>,
    profiles: Vec<ProjectBuildProfile>,
}

impl View for Draft {
    type V = Statements;

    closed spec fn view(&self) -> Statements {
        Statements {
            version: self.version,
            name: opt_text(self.name),
            assets: opt_text(self.assets),
            startup_scene: opt_text(self.startup_scene),
            engine_version: opt_text(self.engine_version),
            input_map: opt_text(self.input_map),
            rendering_profile: opt_text(self.rendering_profile),
            graphics_backend: opt_text(self.graphics_backend),
            runtime_executable: opt_text(self.runtime_executable),
            plugins: texts(self.plugins@),
            profiles: profile_views(self.profiles@),
        }
    }
}

/// `<line>:1: <text>'<keyword>'<end>`
fn statement_message(line_number: usize, text: &str, keyword: &str, end: &str) -> (e: String)
    ensures
        e@ == decimal(line_number as nat) + text@ + keyword@ + end@,
{
    let mut e = decimal_text(line_number as u64);
    e.append(text);
    e.append(keyword);
    e.append(end);
    e
}

fn read_header(words: &Vec<String>) -> (r: Option<u32>)
    ensures
        r == header_version(texts(words@)),
{
    proof {
        assert(texts(words@).len() == words@.len());
        if words@.len() == 2 {
            assert(texts(words@)[0] == words@[0]@);
            assert(texts(words@)[1] == words@[1]@);
        }
    }
    if words.len() == 2 && text_eq(words[0].as_str(), "kairo-project") {
        if text_eq(words[1].as_str(), "1") {
            return Some(1);
        }
        if text_eq(words[1].as_str(), "2") {
            return Some(2);
        }
    }
    None
}

fn basic_keyword(k: &str) -> (r: bool)
    ensures
        r == is_basic_keyword(k@),
{
    text_eq(k, "name") || text_eq(k, "assets") || text_eq(k, "startup-scene")
}

fn extended_keyword(k: &str) -> (r: bool)
    ensures
        r == is_extended_keyword(k@),
{
    text_eq(k, "engine-version") || text_eq(k, "input-map") || text_eq(k, "rendering-profile")
        || text_eq(k, "graphics-backend") || text_eq(k, "runtime-executable") || text_eq(
        k,
        "plugin",
    ) || text_eq(k, "build-profile")
}

impl Draft {
    fn new() -> (d: Draft)
        ensures
            d@ == no_statements(),
    {
        let d = Draft {
            version: None,
            name: None,
            assets: None,
            startup_scene: None,
            engine_version: None,
            input_map: None,
            rendering_profile: None,
            graphics_backend: None,
            runtime_executable: None,
            plugins: Vec::new(),
            profiles: Vec::new(),
        };
        assert(d@.plugins =~= Seq::<Seq<char>>::empty());
        assert(d@.profiles =~= Seq::<ProfileView>::empty());
        d
    }

    fn add(&mut self, words: &Vec<String>, line_number: usize) -> (r: Result<(), String>)
        ensures
            match r {
                Ok(_) => with_statement(old(self)@, texts(words@), line_number as nat) == Ok::<
                    _,
                    Seq<char>,
                >(final(self)@),
                Err(e) => with_statement(old(self)@, texts(words@), line_number as nat) == Err::<
                    Statements,
                    _,
                >(e@),
            },
    {
        let count = words.len();
        proof {
            assert(texts(words@).len() == count);
            assert forall|i: int| 0 <= i < count implies texts(words@)[i] == words@[i]@ by {}
        }
        if count == 0 {
            return Ok(());
        }
        if self.version.is_none() {
            match read_header(words) {
                Some(v) => {
                    self.version = Some(v);
                    return Ok(());
                },
                None => {
                    let mut e = decimal_text(line_number as u64);
                    e.append(":1: expected supported 'kairo-project 1|2' header");
                    return Err(e);
                },
            }
        }
        let k = words[0].as_str();
        let one = count == 2;
        let second = match self.version {
            Some(v) => v == 2,
            None => false,
        };
        if one && text_eq(k, "name") && self.name.is_none() {
            self.name = Some(words[1].clone());
        } else if one && text_eq(k, "assets") && self.assets.is_none() {
            self.assets = Some(words[1].clone());
        } else if one && text_eq(k, "startup-scene") && self.startup_scene.is_none() {
            self.startup_scene = Some(words[1].clone());
        } else if one && second && text_eq(k, "engine-version") && self.engine_version.is_none() {
            self.engine_version = Some(words[1].clone());
        } else if one && second && text_eq(k, "input-map") && self.input_map.is_none() {
            self.input_map = Some(words[1].clone());
        } else if one && second && text_eq(k, "rendering-profile")
            && self.rendering_profile.is_none() {
            self.rendering_profile = Some(words[1].clone());
        } else if one && second && text_eq(k, "graphics-backend")
            && self.graphics_backend.is_none() {
            self.graphics_backend = Some(words[1].clone());
        } else if one && second && text_eq(k, "runtime-executable")
            && self.runtime_executable.is_none() {
            self.runtime_executable = Some(words[1].clone());
        } else if one && second && text_eq(k, "plugin") {
            let ghost before = self.plugins@;
            let plugin = words[1].clone();
            self.plugins.push(plugin);
            proof {
                lemma_texts_push(before, plugin);
            }
        } else if count == 4 && second && text_eq(k, "build-profile") {
            let ghost before = self.profiles@;
            let profile = ProjectBuildProfile {
                name: words[1].clone(),
                kind: words[2].clone(),
                output_directory: words[3].clone(),
            };
            self.profiles.push(profile);
            assert(profile_views(self.profiles@) =~= profile_views(before).push(profile@));
        } else if basic_keyword(k) {
            return Err(
                statement_message(line_number, ":1: duplicate or malformed '", k, "' statement"),
            );
        } else if extended_keyword(k) {
            return Err(
                statement_message(
                    line_number,
                    ":1: malformed or version-incompatible '",
                    k,
                    "' statement",
                ),
            );
        } else {
            return Err(statement_message(line_number, ":1: unknown statement '", k, "'"));
        }
        Ok(())
    }

    fn assemble(self) -> (r: Result<ProjectDescriptor, String>)
        ensures
            match r {
                Ok(d) => assembled(self@) == Ok::<_, Seq<char>>(d@),
                Err(e) => assembled(self@) == Err::<DescriptorView, _>(e@),
            },
    {
        let second = match self.version {
            Some(v) => v == 2,
            None => {
                return Err("1:1: missing kairo-project header".to_owned());
            },
        };
        let no_profiles = self.profiles.len() == 0;
        assert(self@.profiles.len() == self.profiles@.len());
        if second && (self.engine_version.is_none() || self.input_map.is_none()
            || self.rendering_profile.is_none() || no_profiles) {
            return Err(
                "project format 2 requires engine-version, input-map, rendering-profile, and build-profile statements".to_owned(),
            );
        }
        let name = match self.name {
            Some(name) => name,
            None => {
                return Err("project requires a name statement".to_owned());
            },
        };
        let asset_manifest = match self.assets {
            Some(assets) => assets,
            None => {
                return Err("project requires an assets statement".to_owned());
            },
        };
        let startup_scene = match self.startup_scene {
            Some(scene) => scene,
            None => {
                return Err("project requires a startup-scene statement".to_owned());
            },
        };
        let build_profiles = if no_profiles {
            let mut v: Vec<ProjectBuildProfile> = Vec::new();
            v.push(
                ProjectBuildProfile {
                    name: "Development".to_owned(),
                    kind: "development".to_owned(),
                    output_directory: "Build/Development".to_owned(),
                },
            );
            v.push(
                ProjectBuildProfile {
                    name: "Release".to_owned(),
                    kind: "release".to_owned(),
                    output_directory: "Build/Release".to_owned(),
                },
            );
            assert(profile_views(v@) =~= default_profiles());
            v
        } else {
            self.profiles
        };
        Ok(
            ProjectDescriptor {
                name,
                asset_manifest,
                startup_scene,
                engine_version: value_or(self.engine_version, "0.1.0"),
                input_map: value_or(self.input_map, "Config/Input.kinput"),
                rendering_profile: value_or(self.rendering_profile, "desktop"),
                graphics_backend: value_or(self.graphics_backend, "auto"),
                runtime_executable: self.runtime_executable,
                enabled_plugins: self.plugins,
                build_profiles,
            },
        )
    }
}

fn value_or(o: Option<String>, default: &str) -> (r: String)
    ensures
        r@ == or_text(opt_text(o), default@),
{
    match o {
        Some(s) => s,
        None => default.to_owned(),
    }
}

fn graphics_backend_known(s: &str) -> (r: bool)
    ensures
        r == is_graphics_backend(s@),
{
    text_eq(s, "auto") || text_eq(s, "vulkan") || text_eq(s, "metal") || text_eq(s, "d3d12")
        || text_eq(s, "opengl")
}

fn profile_kind_known(s: &str) -> (r: bool)
    ensures
        r == is_profile_kind(s@),
{
    text_eq(s, "development") || text_eq(s, "release")
}

fn check_profiles(all: &Vec<ProjectBuildProfile>) -> (r: Result<(), String>)
    ensures
        match r {
            Ok(_) => profiles_fault(profile_views(all@), 0) is None,
            Err(e) => profiles_fault(profile_views(all@), 0) == Some(e@),
        },
{
    let ghost views = profile_views(all@);
    let mut seen = StringHashSet::new();
    let mut i: usize = 0;
    while i < all.len()
        invariant
            i <= all.len(),
            views == profile_views(all@),
            profiles_fault(views, 0) == profiles_fault(views, i as int),
            forall|name: Seq<char>| #[trigger]
                seen@.contains(name) <==> exists|j: int|
                    0 <= j < i && #[trigger] views[j].name == name,
        decreases all.len() - i,
    {
        assert(views[i as int] == all@[i as int]@);
        let p = &all[i];
        if blank(p.name.as_str()) || !profile_kind_known(p.kind.as_str()) {
            return Err(
                "build profiles require a name and development or release kind".to_owned(),
            );
        }
        match validate_relative_path(p.output_directory.as_str(), "build profile output") {
            Ok(_) => {},
            Err(e) => {
                return Err(e);
            },
        }
        let ghost before = seen@;
        if !seen.insert(p.name.clone()) {
            assert(profile_name_taken(views, i as int));
            return Err("build profile names must be unique".to_owned());
        }
        assert(!profile_name_taken(views, i as int));
        assert forall|name: Seq<char>| #[trigger] seen@.contains(name) <==> exists|j: int|
            0 <= j < i + 1 && #[trigger] views[j].name == name by {
            if name == views[i as int].name {
                assert(views[i as int].name == name);
            } else {
                assert(seen@.contains(name) == before.contains(name));
            }
        }
        i += 1;
    }
    Ok(())
}

fn plugins_ok(plugins: &Vec<String>) -> (r: bool)
    ensures
        r == plugins_distinct(texts(plugins@)),
{
    let ghost all = texts(plugins@);
    let mut seen = StringHashSet::new();
    let mut i: usize = 0;
    while i < plugins.len()
        invariant
            i <= plugins.len(),
            all == texts(plugins@),
            forall|k: int|
                0 <= k < i ==> !is_blank(#[trigger] all[k]) && !all.take(k).contains(all[k]),
            forall|plugin: Seq<char>| #[trigger]
                seen@.contains(plugin) <==> all.take(i as int).contains(plugin),
        decreases plugins.len() - i,
    {
        assert(all[i as int] == plugins@[i as int]@);
        let ghost before = seen@;
        if blank(plugins[i].as_str()) || !seen.insert(plugins[i].clone()) {
            return false;
        }
        assert forall|plugin: Seq<char>| #[trigger] seen@.contains(plugin) <==> all.take(
            i + 1,
        ).contains(plugin) by {
            assert(all.take(i + 1) =~= all.take(i as int).push(all[i as int]));
            if plugin == all[i as int] {
                assert(all.take(i + 1)[i as int] == plugin);
            } else if before.contains(plugin) {
                let k = choose|k: int| 0 <= k < i && all.take(i as int)[k] == plugin;
                assert(all.take(i + 1)[k] == plugin);
            }
        }
        i += 1;
    }
    true
}

fn check_descriptor(d: &ProjectDescriptor) -> (r: Result<(), String>)
    ensures
        match r {
            Ok(_) => descriptor_fault(d@) is None,
            Err(e) => descriptor_fault(d@) == Some(e@),
        },
{
    if blank(d.name.as_str()) || !single_line(d.name.as_str()) {
        return Err("project name must be non-empty and single-line".to_owned());
    }
    match validate_relative_path(d.asset_manifest.as_str(), "assets") {
        Ok(_) => {},
        Err(e) => {
            return Err(e);
        },
    }
    match validate_relative_path(d.startup_scene.as_str(), "startup-scene") {
        Ok(_) => {},
        Err(e) => {
            return Err(e);
        },
    }
    match validate_relative_path(d.input_map.as_str(), "input-map") {
        Ok(_) => {},
        Err(e) => {
            return Err(e);
        },
    }
    match &d.runtime_executable {
        Some(runtime) => {
            match validate_relative_path(runtime.as_str(), "runtime-executable") {
                Ok(_) => {},
                Err(e) => {
                    return Err(e);
                },
            }
        },
        None => {},
    }
    if same_path(d.asset_manifest.as_str(), d.startup_scene.as_str()) {
        return Err("asset manifest and startup scene must be different".to_owned());
    }
    if blank(d.engine_version.as_str()) || blank(d.rendering_profile.as_str()) {
        return Err("engine version and rendering profile must be non-empty".to_owned());
    }
    if !graphics_backend_known(d.graphics_backend.as_str()) {
        return Err("graphics backend must be auto, vulkan, metal, d3d12, or opengl".to_owned());
    }
    match check_profiles(&d.build_profiles) {
        Ok(_) => {},
        Err(e) => {
            return Err(e);
        },
    }
    if !plugins_ok(&d.enabled_plugins) {
        return Err("plugin identifiers must be non-empty and unique".to_owned());
    }
    Ok(())
}

/// Reads a project descriptor, or says why it is none.
pub fn parse_project(source: &str) -> (r: Result<ProjectDescriptor, String>)
    ensures
        match r {
            Ok(d) => project_of(source@) == Ok::<_, Seq<char>>(d@),
            Err(e) => project_of(source@) == Err::<DescriptorView, _>(e@),
        },
{
    if encoded_length(source) as u64 > MAX_PROJECT_BYTES {
        return Err("project descriptor exceeds the 1 MiB safety limit".to_owned());
    }
    let all = lines_of(source);
    let ghost text_lines = lines(source@);
    let mut draft = Draft::new();
    let mut i: usize = 0;
    while i < all.len()
        invariant
            i <= all.len(),
            texts(all@) == text_lines,
            text_lines == lines(source@),
            byte_length(source@) <= MAX_PROJECT_BYTES,
            statements_from(text_lines, 0, no_statements()) == statements_from(
                text_lines,
                i as int,
                draft@,
            ),
        decreases all.len() - i,
    {
        assert(text_lines[i as int] == all@[i as int]@);
        assert(text_lines.len() == all@.len());
        match tokenize(all[i].as_str(), i + 1) {
            Ok(words) => {
                match draft.add(&words, i + 1) {
                    Ok(_) => {},
                    Err(e) => {
                        return Err(e);
                    },
                }
            },
            Err(e) => {
                return Err(e);
            },
        }
        i += 1;
    }
    assert(text_lines.len() == all@.len());
    let descriptor = match draft.assemble() {
        Ok(d) => d,
        Err(e) => {
            return Err(e);
        },
    };
    match check_descriptor(&descriptor) {
        Ok(_) => Ok(descriptor),
        Err(e) => Err(e),
    }
}

// ---------------------------------------------------------------------------
// What every accepted descriptor keeps
// ---------------------------------------------------------------------------
/// A path that names something at or below the project root.
pub open spec fn is_project_relative(path: Seq<char>) -> bool {
    path.len() > 0 && !is_absolute(path) && !components(path).contains(dot_dot())
}

/// A descriptor that can be worked with.
pub open spec fn well_formed(d: DescriptorView) -> bool {
    &&& !is_blank(d.name) && is_single_line(d.name)
    &&& is_project_relative(d.asset_manifest)
    &&& is_project_relative(d.startup_scene)
    &&& is_project_relative(d.input_map)
    &&& d.runtime_executable matches Some(runtime) ==> is_project_relative(runtime)
    &&& !is_same_path(d.asset_manifest, d.startup_scene)
    &&& !is_blank(d.engine_version) && !is_blank(d.rendering_profile)
    &&& is_graphics_backend(d.graphics_backend)
    &&& d.build_profiles.len() > 0
    &&& forall|i: int|
        0 <= i < d.build_profiles.len() ==> {
            let p = #[trigger] d.build_profiles[i];
            !is_blank(p.name) && is_profile_kind(p.kind) && is_project_relative(
                p.output_directory,
            )
        }
    &&& forall|i: int, j: int|
        0 <= i < j < d.build_profiles.len() ==> (#[trigger] d.build_profiles[i]).name != (
        #[trigger] d.build_profiles[j]).name
    &&& forall|i: int|
        0 <= i < d.enabled_plugins.len() ==> !is_blank(#[trigger] d.enabled_plugins[i])
    &&& d.enabled_plugins.no_duplicates()
}

proof fn lemma_sound_profiles(all: Seq<ProfileView>, at: int)
    requires
        0 <= at,
        profiles_fault(all, at) is None,
    ensures
        forall|i: int|
            at <= i < all.len() ==> {
                let p = #[trigger] all[i];
                &&& !is_blank(p.name) && is_profile_kind(p.kind)
                &&& is_project_relative(p.output_directory)
                &&& !profile_name_taken(all, i)
            },
    decreases all.len() - at,
{
    if at < all.len() {
        lemma_sound_profiles(all, at + 1);
    }
}

/// Every descriptor that is accepted is well-formed: its paths stay inside the
/// project, its asset manifest and startup scene are two files, its backend is
/// known, and its build profiles and plugins are told apart by their names.
pub proof fn law_accepted_descriptor_is_well_formed(source: Seq<char>)
    requires
        project_of(source) is Ok,
    ensures
        well_formed(project_of(source)->Ok_0),
{
    let d = project_of(source)->Ok_0;
    assert(descriptor_fault(d) is None);
    lemma_sound_profiles(d.build_profiles, 0);
    assert forall|i: int, j: int| 0 <= i < j < d.build_profiles.len() implies (
    #[trigger] d.build_profiles[i]).name != (#[trigger] d.build_profiles[j]).name by {
        assert(!profile_name_taken(d.build_profiles, j));
    }
    let plugins = d.enabled_plugins;
    assert forall|i: int, j: int|
        0 <= i < plugins.len() && 0 <= j < plugins.len() && i != j implies plugins[i]
        != plugins[j] by {
        let low = if i < j {
            i
        } else {
            j
        };
        let high = if i < j {
            j
        } else {
            i
        };
        assert(!plugins.take(high).contains(plugins[high]));
        assert(plugins.take(high)[low] == plugins[low]);
    }
}

/// Nothing that format 2 adds has been stated.
pub open spec fn is_basic(st: Statements) -> bool {
    &&& st.engine_version is None
    &&& st.input_map is None
    &&& st.rendering_profile is None
    &&& st.graphics_backend is None
    &&& st.runtime_executable is None
    &&& st.plugins.len() == 0
    &&& st.profiles.len() == 0
}

proof fn lemma_format_one_stays_basic(all: Seq<Seq<char>>, at: int, st: Statements)
    requires
        0 <= at,
        st.version != Some(2u32) ==> is_basic(st),
    ensures
        statements_from(all, at, st) matches Ok(end) ==> (end.version != Some(2u32) ==> is_basic(
            end,
        )),
    decreases all.len() - at,
{
    if at < all.len() {
        if let Ok(ts) = tokens(all[at], (at + 1) as nat) {
            if let Ok(next) = with_statement(st, ts, (at + 1) as nat) {
                lemma_format_one_stays_basic(all, at + 1, next);
            }
        }
    }
}

/// A descriptor of format 1 gets no field that its format does not have: what
/// format 2 adds has its default.
pub proof fn law_format_one_has_the_defaults(source: Seq<char>)
    requires
        project_of(source) is Ok,
        statements_from(lines(source), 0, no_statements())->Ok_0.version == Some(1u32),
    ensures
        ({
            let d = project_of(source)->Ok_0;
            &&& d.engine_version == "0.1.0"@
            &&& d.input_map == "Config/Input.kinput"@
            &&& d.rendering_profile == "desktop"@
            &&& d.graphics_backend == "auto"@
            &&& d.runtime_executable is None
            &&& d.enabled_plugins.len() == 0
            &&& d.build_profiles == default_profiles()
        }),
{
    lemma_format_one_stays_basic(lines(source), 0, no_statements());
}

} // verus!
