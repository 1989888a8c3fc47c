use vstd::prelude::*;

verus! {

/// Struct to contain settings about the scene
#[derive(Clone, Copy, Debug)]
pub struct SceneSettings {
    pub render_lights: bool,
    pub wire_frame_mode: bool,
    pub show_overlay: bool,
}

/// The text `bool::to_string` gives for `b`.
pub open spec fn bool_text(b: bool) -> Seq<char> {
    if b {
        "true"@
    } else {
        "false"@
    }
}

impl Default for SceneSettings {
    /// Every setting starts switched off.
    fn default() -> (s: Self)
        ensures
            !s.render_lights,
            !s.wire_frame_mode,
            !s.show_overlay,
    {
        SceneSettings { render_lights: false, wire_frame_mode: false, show_overlay: false }
    }
}

impl SceneSettings {
    /// These settings with `render_lights` flipped.
    pub open spec fn with_render_lights_toggled(self) -> Self {
        SceneSettings { render_lights: !self.render_lights, ..self }
    }

    /// These settings with `wire_frame_mode` flipped.
    pub open spec fn with_wire_frame_mode_toggled(self) -> Self {
        SceneSettings { wire_frame_mode: !self.wire_frame_mode, ..self }
    }

    /// These settings with `show_overlay` flipped.
    pub open spec fn with_overlay_toggled(self) -> Self {
        SceneSettings { show_overlay: !self.show_overlay, ..self }
    }

    /// Toggle of we show the lights as cubes in the scene useful for debugging
    pub fn toggle_render_lights(&mut self)
        ensures
            *final(self) == old(self).with_render_lights_toggled(),
    {
        self.render_lights = !self.render_lights;
    }

    /// Toggle showing wireframe models
    pub fn toggle_wire_frame_mode(&mut self)
        ensures
            *final(self) == old(self).with_wire_frame_mode_toggled(),
    {
        self.wire_frame_mode = !self.wire_frame_mode;
    }

    /// Toggle showing the debug overlay
    pub fn toggle_overlay(&mut self)
        ensures
            *final(self) == old(self).with_overlay_toggled(),
    {
        self.show_overlay = !self.show_overlay;
    }

    /// Return scene settings as string pairs
    pub fn as_pairs(&self) -> (pairs: Vec<(String, String)>)
        ensures
            pairs@.len() == 2,
            pairs@[0].0@ == "render_lights"@,
            pairs@[0].1@ == bool_text(self.render_lights),
            pairs@[1].0@ == "wire_frame_mode"@,
            pairs@[1].1@ == bool_text(self.wire_frame_mode),
    {
        let mut pairs: Vec<(String, String)> = Vec::new();
        pairs.push(("render_lights".to_owned(), bool_to_string(self.render_lights)));
        pairs.push(("wire_frame_mode".to_owned(), bool_to_string(self.wire_frame_mode)));
        pairs
    }
}

/// `"true"` or `"false"`.
fn bool_to_string(b: bool) -> (s: String)
    ensures
        s@ == bool_text(b),
{
    if b {
        "true".to_owned()
    } else {
        "false".to_owned()
    }
}

/// Toggling any setting twice gives back the settings it started from, and toggling one
/// setting leaves the others as they were.
pub proof fn lemma_toggles_are_involutions(s: SceneSettings)
    ensures
        s.with_render_lights_toggled().with_render_lights_toggled() == s,
        s.with_wire_frame_mode_toggled().with_wire_frame_mode_toggled() == s,
        s.with_overlay_toggled().with_overlay_toggled() == s,
        s.with_render_lights_toggled().wire_frame_mode == s.wire_frame_mode,
        s.with_render_lights_toggled().show_overlay == s.show_overlay,
        s.with_wire_frame_mode_toggled().render_lights == s.render_lights,
        s.with_wire_frame_mode_toggled().show_overlay == s.show_overlay,
        s.with_overlay_toggled().render_lights == s.render_lights,
        s.with_overlay_toggled().wire_frame_mode == s.wire_frame_mode,
{
}

} // verus!
