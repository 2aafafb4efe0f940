//! The whole state of a session: the text fields as they were typed, the
//! inventory, the log of saved fits and the page that is open.

use crate::decimal::decimal_units;
use crate::fit::{fit_counts, fit_from_text, fit_residual, is_fit, FitResult};
use crate::log::{entry_text, format_entry, OutputLog};
use crate::registry::{
    is_addition, is_builtin, thickest_first, thickness_of_text, RegistryError, Spacer,
    SpacerRegistry,
};
use vstd::prelude::*;
use vstd::string::*;

verus! {

/// The page that is open.
#[derive(Debug, Clone, Copy, PartialEq, Eq, Structural)]
pub enum Page {
    Main,
    Settings,
}

/// The state of a session.
pub struct SpacingCalculatorApp {
    /// The target thickness, as typed.
    pub input: String,
    /// The name of the spacer that is about to be added, as typed.
    pub temp_name: String,
    /// The thickness of the spacer that is about to be added, as typed.
    pub temp_size: String,
    /// The inventory.
    pub spacers: SpacerRegistry,
    /// The saved fits.
    pub prev_outputs: OutputLog,
    /// The page that is open.
    pub current_page: Page,
}

/// The text under which the fit of the target written in `input` is saved.
pub open spec fn saved_text(input: Seq<char>, spacers: Seq<Spacer>) -> Seq<char> {
    let target = decimal_units(input).unwrap();
    entry_text(
        input,
        fit_residual(spacers, target),
        fit_counts(spacers, target).map_values(|c: nat| c as u64),
        spacers,
    )
}

impl Default for SpacingCalculatorApp {
    /// The state of a first run.
    fn default() -> (app: Self)
        ensures
            app.is_initial(),
    {
        SpacingCalculatorApp::initial()
    }
}

impl SpacingCalculatorApp {
    /// Whether this is the state of a first run: empty text fields, the
    /// built-in inventory, an empty log, and the main page open.
    pub open spec fn is_initial(&self) -> bool {
        &&& self.input@ == Seq::<char>::empty()
        &&& self.temp_name@ == Seq::<char>::empty()
        &&& self.temp_size@ == Seq::<char>::empty()
        &&& self.spacers@.len() == 11
        &&& forall|i: int| 0 <= i < 11 ==> is_builtin(#[trigger] self.spacers@[i], i)
        &&& thickest_first(self.spacers@)
        &&& self.prev_outputs@ == Seq::<Seq<char>>::empty()
        &&& self.current_page == Page::Main
    }

    /// The state at the start of a session: what an earlier session left,
    /// or, where there is none, the state of a first run.
    pub fn new(restored: Option<SpacingCalculatorApp>) -> (app: Self)
        ensures
            match restored {
                Some(earlier) => app == earlier,
                None => app.is_initial(),
            },
    {
        match restored {
            Some(earlier) => earlier,
            None => SpacingCalculatorApp::initial(),
        }
    }

    /// The state of a first run.
    pub fn initial() -> (app: Self)
        ensures
            app.is_initial(),
    {
        SpacingCalculatorApp {
            input: String::new(),
            temp_name: String::new(),
            temp_size: String::new(),
            spacers: SpacerRegistry::builtin(),
            prev_outputs: OutputLog::new(),
            current_page: Page::Main,
        }
    }

    /// Puts the state back to that of a first run.
    pub fn reset(&mut self)
        ensures
            final(self).is_initial(),
    {
        *self = SpacingCalculatorApp::initial();
    }

    /// Opens the settings page.
    pub fn open_settings(&mut self)
        ensures
            final(self).current_page == Page::Settings,
            final(self).input == old(self).input,
            final(self).temp_name == old(self).temp_name,
            final(self).temp_size == old(self).temp_size,
            final(self).spacers == old(self).spacers,
            final(self).prev_outputs == old(self).prev_outputs,
    {
        self.current_page = Page::Settings;
    }

    /// Goes back to the main page.
    pub fn open_main(&mut self)
        ensures
            final(self).current_page == Page::Main,
            final(self).input == old(self).input,
            final(self).temp_name == old(self).temp_name,
            final(self).temp_size == old(self).temp_size,
            final(self).spacers == old(self).spacers,
            final(self).prev_outputs == old(self).prev_outputs,
    {
        self.current_page = Page::Main;
    }

    /// The fit of the target that stands in the input field, if that text is
    /// a decimal number. The state is only read.
    pub fn current_fit(&self) -> (r: Option<FitResult>)
        ensures
            match r {
                Some(fit) => {
                    &&& decimal_units(self.input@) is Some
                    &&& is_fit(fit, self.spacers@, decimal_units(self.input@).unwrap())
                },
                None => decimal_units(self.input@) is None,
            },
    {
        fit_from_text(self.input.as_str(), &self.spacers)
    }

    /// Saves the fit of the target that stands in the input field.
    ///
    /// Where that text is a decimal number, the text of its fit is added to
    /// the log, the input field is emptied, and the result is `true`. For
    /// any other text nothing changes and the result is `false`.
    pub fn save_output(&mut self) -> (saved: bool)
        ensures
            final(self).spacers == old(self).spacers,
            final(self).temp_name == old(self).temp_name,
            final(self).temp_size == old(self).temp_size,
            final(self).current_page == old(self).current_page,
            saved == (decimal_units(old(self).input@) is Some),
            saved ==> {
                &&& final(self).input@ == Seq::<char>::empty()
                &&& final(self).prev_outputs@ == old(self).prev_outputs@.push(
                    saved_text(old(self).input@, old(self).spacers@),
                )
            },
            !saved ==> {
                &&& final(self).input == old(self).input
                &&& final(self).prev_outputs@ == old(self).prev_outputs@
            },
    {
        match fit_from_text(self.input.as_str(), &self.spacers) {
            Some(fit) => {
                let text: String = format_entry(self.input.as_str(), &fit, &self.spacers);
                self.prev_outputs.append(text);
                self.input = String::new();
                proof {
                    let target = decimal_units(old(self).input@).unwrap();
                    assert(fit.counts@ =~= fit_counts(old(self).spacers@, target).map_values(
                        |c: nat| c as u64,
                    ));
                }
                true
            },
            None => false,
        }
    }

    /// Adds the spacer that stands in the two fields for a new spacer.
    ///
    /// On success the two fields are emptied and the result is the new
    /// spacer's position. Where the thickness field holds no decimal number
    /// above zero nothing changes.
    pub fn add_spacer(&mut self) -> (r: Result<usize, RegistryError>)
        ensures
            final(self).input == old(self).input,
            final(self).prev_outputs == old(self).prev_outputs,
            final(self).current_page == old(self).current_page,
            match r {
                Ok(pos) => {
                    &&& thickness_of_text(old(self).temp_size@) is Some
                    &&& is_addition(
                        old(self).spacers@,
                        final(self).spacers@,
                        pos as int,
                        old(self).temp_name@,
                        thickness_of_text(old(self).temp_size@).unwrap(),
                    )
                    &&& final(self).temp_name@ == Seq::<char>::empty()
                    &&& final(self).temp_size@ == Seq::<char>::empty()
                },
                Err(e) => {
                    &&& e == RegistryError::InvalidThickness
                    &&& thickness_of_text(old(self).temp_size@) is None
                    &&& final(self).spacers@ == old(self).spacers@
                    &&& final(self).temp_name == old(self).temp_name
                    &&& final(self).temp_size == old(self).temp_size
                },
            },
    {
        match self.spacers.add(self.temp_name.as_str(), self.temp_size.as_str()) {
            Ok(pos) => {
                self.temp_name = String::new();
                self.temp_size = String::new();
                Ok(pos)
            },
            Err(e) => Err(e),
        }
    }
}

} // verus!
