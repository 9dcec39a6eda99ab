use vstd::prelude::*;

use crate::config::opt_string_view;

verus! {

/// Where the style document lives, beside the configuration document.
pub open spec fn style_path_view(xdg: Option<Seq<char>>, home: Option<Seq<char>>) -> Option<
    Seq<char>,
> {
    if xdg is Some {
        Some(xdg.unwrap() + "/rpi_emulator_frontend/style.toml"@)
    } else if home is Some {
        Some(home.unwrap() + "/.config/rpi_emulator_frontend/style.toml"@)
    } else {
        None
    }
}

/// The path of the user's style document, from the values of the
/// configuration-root override and of the home directory.
pub fn user_style_path(xdg: Option<String>, home: Option<String>) -> (r: Option<String>)
    ensures
        opt_string_view(r) == style_path_view(opt_string_view(xdg), opt_string_view(home)),
{
    match xdg {
        Some(x) => Some(x.concat("/rpi_emulator_frontend/style.toml")),
        None => match home {
            Some(h) => Some(h.concat("/.config/rpi_emulator_frontend/style.toml")),
            None => None,
        },
    }
}

/// The colour theme document.  Every field is optional: an absent field
/// keeps the built-in default when merging, exactly as the configuration
/// document does.  Colours are red/green/blue triples; the alpha fields
/// grade the overlays.
#[derive(Clone, Copy, Debug)]
pub struct StyleConfig {
    pub background: Option<[u8; 3]>,
    pub tile_selected: Option<[u8; 3]>,
    pub tile_normal: Option<[u8; 3]>,
    pub text_primary: Option<[u8; 3]>,
    pub text_secondary: Option<[u8; 3]>,
    pub banner_bg: Option<[u8; 3]>,
    pub banner_text: Option<[u8; 3]>,
    pub emu_text: Option<[u8; 3]>,
    pub overlay_bg: Option<[u8; 3]>,
    pub overlay_alpha: Option<u8>,
    pub menu_bg: Option<[u8; 3]>,
    pub menu_box: Option<[u8; 3]>,
    pub menu_selected: Option<[u8; 3]>,
    pub menu_title: Option<[u8; 3]>,
    pub menu_text: Option<[u8; 3]>,
    pub error_overlay_alpha: Option<u8>,
    pub message_overlay_alpha: Option<u8>,
}

/// Whether an optional colour holds exactly the given triple.
pub open spec fn is_rgb(o: Option<[u8; 3]>, r: u8, g: u8, b: u8) -> bool {
    o matches Some(c) && c[0] == r && c[1] == g && c[2] == b
}

/// The built-in theme, used when no style document exists or it fails to
/// parse.
pub fn default_style() -> (s: StyleConfig)
    ensures
        is_rgb(s.background, 12, 12, 12),
        is_rgb(s.tile_selected, 200, 180, 50),
        is_rgb(s.tile_normal, 60, 60, 60),
        is_rgb(s.text_primary, 240, 240, 240),
        is_rgb(s.text_secondary, 180, 180, 180),
        is_rgb(s.banner_bg, 20, 20, 20),
        is_rgb(s.banner_text, 220, 220, 220),
        is_rgb(s.emu_text, 180, 180, 180),
        is_rgb(s.overlay_bg, 0, 0, 0),
        s.overlay_alpha == Some(200u8),
        is_rgb(s.menu_bg, 10, 10, 10),
        is_rgb(s.menu_box, 40, 40, 40),
        is_rgb(s.menu_selected, 80, 80, 80),
        is_rgb(s.menu_title, 230, 230, 230),
        is_rgb(s.menu_text, 220, 220, 220),
        s.error_overlay_alpha == Some(200u8),
        s.message_overlay_alpha == Some(160u8),
{
    StyleConfig {
        background: Some([12, 12, 12]),
        tile_selected: Some([200, 180, 50]),
        tile_normal: Some([60, 60, 60]),
        text_primary: Some([240, 240, 240]),
        text_secondary: Some([180, 180, 180]),
        banner_bg: Some([20, 20, 20]),
        banner_text: Some([220, 220, 220]),
        emu_text: Some([180, 180, 180]),
        overlay_bg: Some([0, 0, 0]),
        overlay_alpha: Some(200),
        menu_bg: Some([10, 10, 10]),
        menu_box: Some([40, 40, 40]),
        menu_selected: Some([80, 80, 80]),
        menu_title: Some([230, 230, 230]),
        menu_text: Some([220, 220, 220]),
        error_overlay_alpha: Some(200),
        message_overlay_alpha: Some(160),
    }
}

/// Merge a parsed style document into `s`, field by field: every field the
/// document sets overrides the default, every absent field keeps it.
#[verifier::rlimit(60)]
pub fn merge_style(s: &mut StyleConfig, parsed: StyleConfig)
    ensures
        final(s).background == (if parsed.background is Some {
            parsed.background
        } else {
            old(s).background
        }),
        final(s).tile_selected == (if parsed.tile_selected is Some {
            parsed.tile_selected
        } else {
            old(s).tile_selected
        }),
        final(s).tile_normal == (if parsed.tile_normal is Some {
            parsed.tile_normal
        } else {
            old(s).tile_normal
        }),
        final(s).text_primary == (if parsed.text_primary is Some {
            parsed.text_primary
        } else {
            old(s).text_primary
        }),
        final(s).text_secondary == (if parsed.text_secondary is Some {
            parsed.text_secondary
        } else {
            old(s).text_secondary
        }),
        final(s).banner_bg == (if parsed.banner_bg is Some {
            parsed.banner_bg
        } else {
            old(s).banner_bg
        }),
        final(s).banner_text == (if parsed.banner_text is Some {
            parsed.banner_text
        } else {
            old(s).banner_text
        }),
        final(s).emu_text == (if parsed.emu_text is Some {
            parsed.emu_text
        } else {
            old(s).emu_text
        }),
        final(s).overlay_bg == (if parsed.overlay_bg is Some {
            parsed.overlay_bg
        } else {
            old(s).overlay_bg
        }),
        final(s).overlay_alpha == (if parsed.overlay_alpha is Some {
            parsed.overlay_alpha
        } else {
            old(s).overlay_alpha
        }),
        final(s).menu_bg == (if parsed.menu_bg is Some {
            parsed.menu_bg
        } else {
            old(s).menu_bg
        }),
        final(s).menu_box == (if parsed.menu_box is Some {
            parsed.menu_box
        } else {
            old(s).menu_box
        }),
        final(s).menu_selected == (if parsed.menu_selected is Some {
            parsed.menu_selected
        } else {
            old(s).menu_selected
        }),
        final(s).menu_title == (if parsed.menu_title is Some {
            parsed.menu_title
        } else {
            old(s).menu_title
        }),
        final(s).menu_text == (if parsed.menu_text is Some {
            parsed.menu_text
        } else {
            old(s).menu_text
        }),
        final(s).error_overlay_alpha == (if parsed.error_overlay_alpha is Some {
            parsed.error_overlay_alpha
        } else {
            old(s).error_overlay_alpha
        }),
        final(s).message_overlay_alpha == (if parsed.message_overlay_alpha is Some {
            parsed.message_overlay_alpha
        } else {
            old(s).message_overlay_alpha
        }),
{
    let prev = *s;
    *s = StyleConfig {
        background: if parsed.background.is_some() {
            parsed.background
        } else {
            prev.background
        },
        tile_selected: if parsed.tile_selected.is_some() {
            parsed.tile_selected
        } else {
            prev.tile_selected
        },
        tile_normal: if parsed.tile_normal.is_some() {
            parsed.tile_normal
        } else {
            prev.tile_normal
        },
        text_primary: if parsed.text_primary.is_some() {
            parsed.text_primary
        } else {
            prev.text_primary
        },
        text_secondary: if parsed.text_secondary.is_some() {
            parsed.text_secondary
        } else {
            prev.text_secondary
        },
        banner_bg: if parsed.banner_bg.is_some() {
            parsed.banner_bg
        } else {
            prev.banner_bg
        },
        banner_text: if parsed.banner_text.is_some() {
            parsed.banner_text
        } else {
            prev.banner_text
        },
        emu_text: if parsed.emu_text.is_some() {
            parsed.emu_text
        } else {
            prev.emu_text
        },
        overlay_bg: if parsed.overlay_bg.is_some() {
            parsed.overlay_bg
        } else {
            prev.overlay_bg
        },
        overlay_alpha: if parsed.overlay_alpha.is_some() {
            parsed.overlay_alpha
        } else {
            prev.overlay_alpha
        },
        menu_bg: if parsed.menu_bg.is_some() {
            parsed.menu_bg
        } else {
            prev.menu_bg
        },
        menu_box: if parsed.menu_box.is_some() {
            parsed.menu_box
        } else {
            prev.menu_box
        },
        menu_selected: if parsed.menu_selected.is_some() {
            parsed.menu_selected
        } else {
            prev.menu_selected
        },
        menu_title: if parsed.menu_title.is_some() {
            parsed.menu_title
        } else {
            prev.menu_title
        },
        menu_text: if parsed.menu_text.is_some() {
            parsed.menu_text
        } else {
            prev.menu_text
        },
        error_overlay_alpha: if parsed.error_overlay_alpha.is_some() {
            parsed.error_overlay_alpha
        } else {
            prev.error_overlay_alpha
        },
        message_overlay_alpha: if parsed.message_overlay_alpha.is_some() {
            parsed.message_overlay_alpha
        } else {
            prev.message_overlay_alpha
        },
    };
}

} // verus!
