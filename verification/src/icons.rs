//! The toolbar icons and the names of their textures.

use vstd::prelude::*;

use crate::decimal::{decimal, push_decimal};
use crate::text::push_str;

verus! {

/// A bundled SVG used by the chrome toolbar.
#[derive(Clone, Copy, Debug, PartialEq, Eq, Hash, Structural)]
pub enum ToolbarIcon {
    Home,
    Reload,
    Stop,
}

/// The texture name of each icon.
pub open spec fn texture_name_text(icon: ToolbarIcon) -> Seq<char> {
    match icon {
        ToolbarIcon::Home => "toolbar-home"@,
        ToolbarIcon::Reload => "toolbar-reload"@,
        ToolbarIcon::Stop => "toolbar-stop"@,
    }
}

impl ToolbarIcon {
    /// The name of the icon's texture.
    pub fn texture_name(self) -> (name: &'static str)
        ensures
            name@ == texture_name_text(self),
    {
        match self {
            ToolbarIcon::Home => "toolbar-home",
            ToolbarIcon::Reload => "toolbar-reload",
            ToolbarIcon::Stop => "toolbar-stop",
        }
    }

    /// `{texture name}@{pixel size}`: the name of the icon's texture rasterized
    /// at `pixel_size` pixels.
    pub fn texture_key(self, pixel_size: u32) -> (key: String)
        ensures
            key@ == texture_name_text(self) + seq!['@'] + decimal(pixel_size as nat),
    {
        let mut key = String::new();
        push_str(&mut key, self.texture_name());
        push_str(&mut key, "@");
        push_decimal(&mut key, pixel_size as u64);
        proof {
            reveal_strlit("@");
        }
        assert(key@ =~= texture_name_text(self) + seq!['@'] + decimal(pixel_size as nat));
        key
    }
}

} // verus!
