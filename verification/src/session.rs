//! The state of a viewing session and its transitions.
//!
//! The session owns the document, the list of layers and the state of the
//! export dialog. Each event of the user interface moves it to its next
//! state and names the effect that the caller has to carry out.

use crate::error::SvgError;
use crate::export::{plan_export, ExportOutcome};
use crate::layers::{layers_view, set_visible_layers, visibility_rule};
use crate::rewrite::rewritten_document;
use crate::transform::{matrix_text, transform_rule, transform_svg, Matrix};
use crate::xml::xml_document;
use vstd::prelude::*;

verus! {

/// The state of a session.
#[derive(Clone, Debug, PartialEq, Eq)]
pub struct Session {
    /// Whether the user is asked to confirm an overwrite.
    pub ask_overwrite: bool,
    /// Whether the export dialog is open.
    pub show_modal: bool,
    /// Whether the pointer is held down on the picture.
    pub panning: bool,
    /// The width of the window.
    pub current_width: u32,
    /// The height of the window.
    pub current_height: u32,
    /// The path of the document.
    pub file_name: String,
    /// The document.
    pub svg_content: Vec<u8>,
    /// The layers of the document, each with its visibility.
    pub layers: Vec<(String, bool)>,
    /// The picture that was rendered last for an export.
    pub png_content: Vec<u8>,
    /// The path that the export writes to.
    pub output_file_name: String,
}

/// The mathematical value of a [`Session`].
pub struct SessionView {
    pub ask_overwrite: bool,
    pub show_modal: bool,
    pub panning: bool,
    pub current_width: u32,
    pub current_height: u32,
    pub file_name: Seq<char>,
    pub svg_content: Seq<u8>,
    pub layers: Seq<(Seq<char>, bool)>,
    pub png_content: Seq<u8>,
    pub output_file_name: Seq<char>,
}

impl View for Session {
    type V = SessionView;

    open spec fn view(&self) -> SessionView {
        SessionView {
            ask_overwrite: self.ask_overwrite,
            show_modal: self.show_modal,
            panning: self.panning,
            current_width: self.current_width,
            current_height: self.current_height,
            file_name: self.file_name@,
            svg_content: self.svg_content@,
            layers: layers_view(self.layers@),
            png_content: self.png_content@,
            output_file_name: self.output_file_name@,
        }
    }
}

/// What happens to a session.
#[derive(Debug)]
pub enum Event {
    /// The user shows or hides the layer with this name.
    ToggleLayerVisibility(String, bool),
    /// The user names the file to export to.
    OutFileName(String),
    /// The user opens the export dialog.
    OpenExport,
    /// The user asks to save: the picture as it was rendered for the export,
    /// and whether the target of the export exists.
    SaveExport(Vec<u8>, bool),
    /// The user closes the export dialog.
    CancelExport,
    /// The user confirms that the target may be overwritten.
    Overwrite,
    /// The user declines to overwrite the target.
    NoOverwrite,
    /// The fonts of the user interface are loaded.
    FontLoaded,
    /// Zoom, pan or reset gave the document this matrix.
    Transform(Matrix),
    /// The pointer is pressed on the picture.
    StartPan,
    /// The pointer is released.
    EndPan,
    /// The window has this width and height.
    Resized(u32, u32),
}

/// What the caller has to do after an event.
#[derive(Clone, Copy, Debug, PartialEq, Eq, Structural)]
pub enum Effect {
    /// Nothing.
    Nothing,
    /// Set the size of the export back to the size of the document.
    ResetOutputSize,
    /// Write the rendered picture to the target, then set the size of the
    /// export back to the size of the document.
    WritePicture,
}

/// The list of layers with `visible` for each layer called `name`.
pub open spec fn toggled(layers: Seq<(Seq<char>, bool)>, name: Seq<char>, visible: bool) -> Seq<
    (Seq<char>, bool),
> {
    Seq::new(
        layers.len(),
        |i: int|
            if layers[i].0 == name {
                (layers[i].0, visible)
            } else {
                layers[i]
            },
    )
}

/// The state after an event and the effect that it asks for, or the failure
/// of the pass that the event called for. A failure leaves the state as it was.
pub open spec fn next(state: SessionView, event: Event) -> Result<(SessionView, Effect), SvgError> {
    match event {
        Event::ToggleLayerVisibility(name, visible) => {
            let layers = toggled(state.layers, name@, visible);
            match rewritten_document(visibility_rule(layers), xml_document(state.svg_content)) {
                Ok(document) => Ok(
                    (SessionView { layers, svg_content: document, ..state }, Effect::Nothing),
                ),
                Err(error) => Err(error),
            }
        },
        Event::OutFileName(name) => Ok(
            (SessionView { output_file_name: name@, ..state }, Effect::Nothing),
        ),
        Event::OpenExport => Ok((SessionView { show_modal: true, ..state }, Effect::Nothing)),
        Event::SaveExport(picture, target_exists) => if target_exists {
            Ok(
                (
                    SessionView { png_content: picture@, ask_overwrite: true, ..state },
                    Effect::Nothing,
                ),
            )
        } else {
            Ok(
                (
                    SessionView { png_content: picture@, show_modal: false, ..state },
                    Effect::WritePicture,
                ),
            )
        },
        Event::CancelExport => Ok(
            (SessionView { show_modal: false, ..state }, Effect::ResetOutputSize),
        ),
        Event::Overwrite => Ok(
            (
                SessionView { show_modal: false, ask_overwrite: false, ..state },
                Effect::WritePicture,
            ),
        ),
        Event::NoOverwrite => Ok((SessionView { ask_overwrite: false, ..state }, Effect::Nothing)),
        Event::FontLoaded => Ok((state, Effect::Nothing)),
        Event::Transform(matrix) => match rewritten_document(
            transform_rule(matrix_text(matrix)),
            xml_document(state.svg_content),
        ) {
            Ok(document) => Ok((SessionView { svg_content: document, ..state }, Effect::Nothing)),
            Err(error) => Err(error),
        },
        Event::StartPan => Ok((SessionView { panning: true, ..state }, Effect::Nothing)),
        Event::EndPan => Ok((SessionView { panning: false, ..state }, Effect::Nothing)),
        Event::Resized(width, height) => Ok(
            (
                SessionView { current_width: width, current_height: height, ..state },
                Effect::Nothing,
            ),
        ),
    }
}

/// The layers of a session are fixed once it is made: whatever happens, the
/// list keeps its length and each entry keeps its name. Only an event that
/// shows or hides a layer changes an entry, and only entries of that name.
pub proof fn layers_stay(state: SessionView, event: Event, i: int)
    requires
        next(state, event) is Ok,
        0 <= i < state.layers.len(),
    ensures
        ({
            let after = next(state, event)->Ok_0.0;
            &&& after.layers.len() == state.layers.len()
            &&& after.layers[i].0 == state.layers[i].0
            &&& after.layers[i].1 != state.layers[i].1 ==> (event matches Event::ToggleLayerVisibility(
                name,
                visible,
            ) && name@ == state.layers[i].0 && after.layers[i].1 == visible)
        }),
{
}

/// Sets the visibility of each layer called `name`.
pub fn toggle(layers: &Vec<(String, bool)>, name: &String, visible: bool) -> (out: Vec<
    (String, bool),
>)
    ensures
        layers_view(out@) == toggled(layers_view(layers@), name@, visible),
{
    let mut out: Vec<(String, bool)> = Vec::new();
    let mut i: usize = 0;
    while i < layers.len()
        invariant
            i <= layers@.len(),
            out@.len() == i,
            forall|j: int|
                0 <= j < i ==> (#[trigger] out@[j]).0@ == layers@[j].0@ && out@[j].1 == (if layers@[j].0@
                    == name@ {
                    visible
                } else {
                    layers@[j].1
                }),
        decreases layers@.len() - i,
    {
        let entry = &layers[i];
        let shown = if entry.0 == *name {
            visible
        } else {
            entry.1
        };
        out.push((entry.0.clone(), shown));
        i += 1;
    }
    assert(layers_view(out@) =~= toggled(layers_view(layers@), name@, visible));
    out
}

impl Session {
    /// The session of a document that was just loaded: every layer is
    /// visible, no dialog is open and the pointer is up.
    pub fn new(
        file_name: String,
        svg_content: Vec<u8>,
        layers: Vec<String>,
        output_file_name: String,
    ) -> (session: Session)
        ensures
            session@ == (SessionView {
                ask_overwrite: false,
                show_modal: false,
                panning: false,
                current_width: 0,
                current_height: 0,
                file_name: file_name@,
                svg_content: svg_content@,
                layers: Seq::new(layers@.len(), |i: int| (layers@[i]@, true)),
                png_content: Seq::empty(),
                output_file_name: output_file_name@,
            }),
    {
        let mut shown: Vec<(String, bool)> = Vec::new();
        let mut i: usize = 0;
        while i < layers.len()
            invariant
                i <= layers@.len(),
                shown@.len() == i,
                forall|j: int| 0 <= j < i ==> (#[trigger] shown@[j]).0@ == layers@[j]@ && shown@[j].1,
            decreases layers@.len() - i,
        {
            shown.push((layers[i].clone(), true));
            i += 1;
        }
        assert(layers_view(shown@) =~= Seq::new(layers@.len(), |i: int| (layers@[i]@, true)));
        Session {
            ask_overwrite: false,
            show_modal: false,
            panning: false,
            current_width: 0,
            current_height: 0,
            file_name,
            svg_content,
            layers: shown,
            png_content: Vec::new(),
            output_file_name,
        }
    }

    /// Whether a move of the pointer pans the picture: the pointer is held
    /// down and the picture is zoomed in.
    pub fn pan_active(&self, zoomed_in: bool) -> (active: bool)
        ensures
            active == (self.panning && zoomed_in),
    {
        self.panning && zoomed_in
    }

    /// Moves the session to its next state.
    ///
    /// The result is the effect that the caller has to carry out, or the
    /// failure of the pass that the event called for; after a failure the
    /// session is as it was.
    pub fn update(&mut self, event: Event) -> (result: Result<Effect, SvgError>)
        ensures
            match result {
                Ok(effect) => next(old(self)@, event) == Ok::<(SessionView, Effect), SvgError>(
                    (final(self)@, effect),
                ),
                Err(error) => next(old(self)@, event) == Err::<(SessionView, Effect), SvgError>(
                    error,
                ) && final(self)@ == old(self)@,
            },
    {
        match event {
            Event::ToggleLayerVisibility(name, visible) => {
                let layers = toggle(&self.layers, &name, visible);
                match set_visible_layers(&self.svg_content, &layers) {
                    Ok(document) => {
                        self.layers = layers;
                        self.svg_content = document;
                        Ok(Effect::Nothing)
                    },
                    Err(error) => Err(error),
                }
            },
            Event::OutFileName(name) => {
                self.output_file_name = name;
                Ok(Effect::Nothing)
            },
            Event::OpenExport => {
                self.show_modal = true;
                Ok(Effect::Nothing)
            },
            Event::SaveExport(picture, target_exists) => {
                self.png_content = picture;
                match plan_export(target_exists, false) {
                    ExportOutcome::Skipped => {
                        self.ask_overwrite = true;
                        Ok(Effect::Nothing)
                    },
                    ExportOutcome::Written => {
                        self.show_modal = false;
                        Ok(Effect::WritePicture)
                    },
                }
            },
            Event::CancelExport => {
                self.show_modal = false;
                Ok(Effect::ResetOutputSize)
            },
            Event::Overwrite => {
                self.show_modal = false;
                self.ask_overwrite = false;
                Ok(Effect::WritePicture)
            },
            Event::NoOverwrite => {
                self.ask_overwrite = false;
                Ok(Effect::Nothing)
            },
            Event::FontLoaded => Ok(Effect::Nothing),
            Event::Transform(matrix) => {
                match transform_svg(&self.svg_content, &matrix) {
                    Ok(document) => {
                        self.svg_content = document;
                        Ok(Effect::Nothing)
                    },
                    Err(error) => Err(error),
                }
            },
            Event::StartPan => {
                self.panning = true;
                Ok(Effect::Nothing)
            },
            Event::EndPan => {
                self.panning = false;
                Ok(Effect::Nothing)
            },
            Event::Resized(width, height) => {
                self.current_width = width;
                self.current_height = height;
                Ok(Effect::Nothing)
            },
        }
    }
}

} // verus!
