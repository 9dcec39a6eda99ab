use vstd::prelude::*;

verus! {

/// How one emulator program is started: the program name and its ordered
/// argument list (an argument equal to the placeholder token stands for the
/// chosen item's path), plus two optional extension filters.  `extensions`
/// is consulted when resolving a file's system by its extension;
/// `visible_extensions` restricts which files are listed for the system.
#[derive(Clone, Debug)]
pub struct CmdTemplate {
    pub program: String,
    pub args: Vec<String>,
    pub extensions: Option<Vec<String>>,
    pub visible_extensions: Option<Vec<String>>,
}

/// Mathematical model of a `CmdTemplate`.
pub ghost struct TemplateView {
    pub program: Seq<char>,
    pub args: Seq<Seq<char>>,
    pub extensions: Option<Seq<Seq<char>>>,
    pub visible_extensions: Option<Seq<Seq<char>>>,
}

/// Model of an optional list of strings.
pub open spec fn opt_strings_view(o: Option<Vec<String>>) -> Option<Seq<Seq<char>>> {
    match o {
        None => None,
        Some(v) => Some(v.deep_view()),
    }
}

impl View for CmdTemplate {
    type V = TemplateView;

    open spec fn view(&self) -> TemplateView {
        TemplateView {
            program: self.program@,
            args: self.args.deep_view(),
            extensions: opt_strings_view(self.extensions),
            visible_extensions: opt_strings_view(self.visible_extensions),
        }
    }
}

/// The configuration document.  Every field is optional: an absent field
/// means "keep the built-in default" when merging.  The per-system table and
/// the controller map are kept as ordered lists of pairs because their
/// insertion order is significant: it is the resolution and display order.
#[derive(Clone, Debug)]
pub struct ConfigFile {
    pub default: Option<CmdTemplate>,
    pub systems: Option<Vec<(String, CmdTemplate)>>,
    pub show_empty_systems: Option<bool>,
    pub controller_map: Option<Vec<(String, String)>>,
    pub default_roms_path: Option<String>,
    pub font_path: Option<String>,
}

/// Mathematical model of a `ConfigFile`.
pub ghost struct ConfigView {
    pub default: Option<TemplateView>,
    pub systems: Option<Seq<(Seq<char>, TemplateView)>>,
    pub show_empty_systems: Option<bool>,
    pub controller_map: Option<Seq<(Seq<char>, Seq<char>)>>,
    pub default_roms_path: Option<Seq<char>>,
    pub font_path: Option<Seq<char>>,
}

pub open spec fn opt_template_view(o: Option<CmdTemplate>) -> Option<TemplateView> {
    match o {
        None => None,
        Some(t) => Some(t@),
    }
}

pub open spec fn systems_view(v: Vec<(String, CmdTemplate)>) -> Seq<(Seq<char>, TemplateView)> {
    v@.map_values(|p: (String, CmdTemplate)| (p.0@, p.1@))
}

pub open spec fn opt_systems_view(o: Option<Vec<(String, CmdTemplate)>>) -> Option<
    Seq<(Seq<char>, TemplateView)>,
> {
    match o {
        None => None,
        Some(v) => Some(systems_view(v)),
    }
}

pub open spec fn opt_pairs_view(o: Option<Vec<(String, String)>>) -> Option<
    Seq<(Seq<char>, Seq<char>)>,
> {
    match o {
        None => None,
        Some(v) => Some(v.deep_view()),
    }
}

pub open spec fn opt_string_view(o: Option<String>) -> Option<Seq<char>> {
    match o {
        None => None,
        Some(s) => Some(s@),
    }
}

impl View for ConfigFile {
    type V = ConfigView;

    open spec fn view(&self) -> ConfigView {
        ConfigView {
            default: opt_template_view(self.default),
            systems: opt_systems_view(self.systems),
            show_empty_systems: self.show_empty_systems,
            controller_map: opt_pairs_view(self.controller_map),
            default_roms_path: opt_string_view(self.default_roms_path),
            font_path: opt_string_view(self.font_path),
        }
    }
}

/// Model of the built-in default template: the stand-alone program
/// `mgba-qt` invoked with the item path alone.
pub open spec fn default_template_view() -> TemplateView {
    TemplateView {
        program: "mgba-qt"@,
        args: seq!["{rom}"@],
        extensions: None,
        visible_extensions: None,
    }
}

/// Model of the built-in default configuration.
pub open spec fn default_config_view() -> ConfigView {
    ConfigView {
        default: Some(default_template_view()),
        systems: None,
        show_empty_systems: Some(false),
        controller_map: None,
        default_roms_path: None,
        font_path: None,
    }
}

/// The in-memory defaults used when no configuration document exists or the
/// document fails to parse.
pub fn default_config() -> (cfg: ConfigFile)
    ensures
        cfg@ == default_config_view(),
{
    let mut args: Vec<String> = Vec::new();
    args.push(String::from_str("{rom}"));
    let tmpl = CmdTemplate {
        program: String::from_str("mgba-qt"),
        args,
        extensions: None,
        visible_extensions: None,
    };
    let cfg = ConfigFile {
        default: Some(tmpl),
        systems: None,
        show_empty_systems: Some(false),
        controller_map: None,
        default_roms_path: None,
        font_path: None,
    };
    proof {
        assert(cfg@.default == Some(default_template_view())) by {
            assert(cfg.default.unwrap().args.deep_view() =~= seq!["{rom}"@]);
        }
    }
    cfg
}

/// Model of the field-wise merge: every field present in `parsed` overrides
/// the corresponding field of `base`; absent fields keep the base value.
pub open spec fn merged_config_view(base: ConfigView, parsed: ConfigView) -> ConfigView {
    ConfigView {
        default: if parsed.default is Some {
            parsed.default
        } else {
            base.default
        },
        systems: if parsed.systems is Some {
            parsed.systems
        } else {
            base.systems
        },
        show_empty_systems: if parsed.show_empty_systems is Some {
            parsed.show_empty_systems
        } else {
            base.show_empty_systems
        },
        controller_map: if parsed.controller_map is Some {
            parsed.controller_map
        } else {
            base.controller_map
        },
        default_roms_path: if parsed.default_roms_path is Some {
            parsed.default_roms_path
        } else {
            base.default_roms_path
        },
        font_path: if parsed.font_path is Some {
            parsed.font_path
        } else {
            base.font_path
        },
    }
}

/// Merge a parsed configuration document into `cfg`, field by field.
pub fn merge_config(cfg: &mut ConfigFile, parsed: ConfigFile)
    ensures
        final(cfg)@ == merged_config_view(old(cfg)@, parsed@),
{
    let ConfigFile { default, systems, show_empty_systems, controller_map, default_roms_path, font_path } =
        parsed;
    if default.is_some() {
        cfg.default = default;
    }
    if systems.is_some() {
        cfg.systems = systems;
    }
    if show_empty_systems.is_some() {
        cfg.show_empty_systems = show_empty_systems;
    }
    if controller_map.is_some() {
        cfg.controller_map = controller_map;
    }
    if default_roms_path.is_some() {
        cfg.default_roms_path = default_roms_path;
    }
    if font_path.is_some() {
        cfg.font_path = font_path;
    }
}

/// Where the configuration document lives, given the values of the
/// configuration-root override and of the home directory: under the
/// override when one is set, under `.config` in the home directory
/// otherwise, and nowhere when neither is known.
pub open spec fn config_path_view(xdg: Option<Seq<char>>, home: Option<Seq<char>>) -> Option<
    Seq<char>,
> {
    if xdg is Some {
        Some(xdg.unwrap() + "/rpi_emulator_frontend/config.toml"@)
    } else if home is Some {
        Some(home.unwrap() + "/.config/rpi_emulator_frontend/config.toml"@)
    } else {
        None
    }
}

/// The path of the user's configuration document, from the values of the
/// configuration-root override and of the home directory; `None` when no
/// configuration root can be determined, in which case the defaults are
/// used with no persistence.
pub fn user_config_path(xdg: Option<String>, home: Option<String>) -> (r: Option<String>)
    ensures
        opt_string_view(r) == config_path_view(opt_string_view(xdg), opt_string_view(home)),
{
    match xdg {
        Some(x) => Some(x.concat("/rpi_emulator_frontend/config.toml")),
        None => match home {
            Some(h) => Some(h.concat("/.config/rpi_emulator_frontend/config.toml")),
            None => None,
        },
    }
}

/// The distinct ways persisting the configuration can fail: no place to
/// write it, the parent directory could not be created, the document could
/// not be serialized, the temporary file could not be written, or the
/// atomic rename over the target failed.  Each carries the underlying
/// error's text.
#[derive(Debug)]
pub enum SaveError {
    NoConfigPath,
    CreateDir(String),
    Serialize(String),
    WriteTemp(String),
    Rename(String),
}

pub open spec fn save_error_message_view(e: SaveError) -> Seq<char> {
    match e {
        SaveError::NoConfigPath => "No config path available"@,
        SaveError::CreateDir(d) => "Failed to create config dir: "@ + d@,
        SaveError::Serialize(d) => "Failed to serialize config: "@ + d@,
        SaveError::WriteTemp(d) => "Failed writing tmp config: "@ + d@,
        SaveError::Rename(d) => "Failed renaming config: "@ + d@,
    }
}

/// The user-facing text of a save failure.
pub fn save_error_message(e: &SaveError) -> (r: String)
    ensures
        r@ == save_error_message_view(*e),
{
    match e {
        SaveError::NoConfigPath => String::from_str("No config path available"),
        SaveError::CreateDir(d) => {
            let mut m = String::from_str("Failed to create config dir: ");
            m.append(d.as_str());
            m
        },
        SaveError::Serialize(d) => {
            let mut m = String::from_str("Failed to serialize config: ");
            m.append(d.as_str());
            m
        },
        SaveError::WriteTemp(d) => {
            let mut m = String::from_str("Failed writing tmp config: ");
            m.append(d.as_str());
            m
        },
        SaveError::Rename(d) => {
            let mut m = String::from_str("Failed renaming config: ");
            m.append(d.as_str());
            m
        },
    }
}

/// A document in which every optional field is present overrides the base
/// completely: merging it reproduces the document itself.  Together with
/// `lemma_merge_all_absent`, this is the merge half of the save/load round
/// trip: a saved configuration whose fields are all present is reproduced
/// exactly by loading it over any defaults.
pub proof fn lemma_merge_all_present(base: ConfigView, parsed: ConfigView)
    requires
        parsed.default is Some,
        parsed.systems is Some,
        parsed.show_empty_systems is Some,
        parsed.controller_map is Some,
        parsed.default_roms_path is Some,
        parsed.font_path is Some,
    ensures
        merged_config_view(base, parsed) == parsed,
{
}

/// A document with no field present changes nothing: merging it leaves the
/// base configuration as it stands.
pub proof fn lemma_merge_all_absent(base: ConfigView, parsed: ConfigView)
    requires
        parsed.default is None,
        parsed.systems is None,
        parsed.show_empty_systems is None,
        parsed.controller_map is None,
        parsed.default_roms_path is None,
        parsed.font_path is None,
    ensures
        merged_config_view(base, parsed) == base,
{
}

/// The merge is field-wise: a document with a single field present leaves
/// every other field of the base untouched.  Stated here for the per-system
/// table; each other field follows from `merged_config_view` in the same
/// way.
pub proof fn lemma_merge_single_field(base: ConfigView, parsed: ConfigView)
    requires
        parsed.default is None,
        parsed.show_empty_systems is None,
        parsed.controller_map is None,
        parsed.default_roms_path is None,
        parsed.font_path is None,
    ensures
        merged_config_view(base, parsed).default == base.default,
        merged_config_view(base, parsed).show_empty_systems == base.show_empty_systems,
        merged_config_view(base, parsed).controller_map == base.controller_map,
        merged_config_view(base, parsed).default_roms_path == base.default_roms_path,
        merged_config_view(base, parsed).font_path == base.font_path,
        parsed.systems is Some ==> merged_config_view(base, parsed).systems == parsed.systems,
{
}

} // verus!
