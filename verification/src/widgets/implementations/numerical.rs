//! Numerical input widget: direct entry of a number.

use vstd::prelude::*;
use crate::ast::Annotation;
use crate::error::{WezzteError, ErrorView};
use crate::text::to_owned_string;
use crate::widgets::traits::{WidgetConfig, WidgetConfigView, WidgetValue, WVal, config_from_annotation};
use crate::widgets::implementations::select::with_current;

verus! {

/// Numerical input widget.
#[derive(Debug)]
pub struct NumericalWidget {
    config: WidgetConfig,
    initial_value: WidgetValue,
}

/// Model of [`NumericalWidget`].
pub struct NumericalView {
    pub config: WidgetConfigView,
    pub initial_value: WVal,
}

impl View for NumericalWidget {
    type V = NumericalView;

    closed spec fn view(&self) -> NumericalView {
        NumericalView { config: self.config@, initial_value: self.initial_value@ }
    }
}

/// Outcome of validating a value for a numerical widget: numbers only.
pub open spec fn number_check(x: WVal) -> Result<(), ErrorView> {
    if x is Num {
        Ok(())
    } else {
        Err(ErrorView::InvalidParameter { param: "value"@, message: "numerical widget requires number"@ })
    }
}

impl NumericalWidget {
    /// The widget's configuration.
    pub fn config(&self) -> (r: &WidgetConfig)
        ensures
            r@ == self@.config,
    {
        &self.config
    }

    /// The current value.
    pub fn get_value(&self) -> (r: &WidgetValue)
        ensures
            r@ == self@.config.current_value,
    {
        &self.config.current_value
    }

    /// Set the value: it must be a number; on an error the widget is unchanged.
    pub fn set_value(&mut self, value: WidgetValue) -> (r: Result<(), WezzteError>)
        ensures
            match number_check(value@) {
                Ok(()) => r is Ok && final(self)@ == (NumericalView {
                    config: with_current(old(self)@.config, value@),
                    initial_value: old(self)@.initial_value,
                }),
                Err(e) => r matches Err(x) && x@ == e && final(self)@ == old(self)@,
            },
    {
        if matches!(value, WidgetValue::Number(_)) {
            self.config.current_value = value;
            Ok(())
        } else {
            Err(WezzteError::invalid_param("value", to_owned_string("numerical widget requires number")))
        }
    }

    /// Validate a potential value for this widget.
    pub fn validate_value(&self, value: &WidgetValue) -> (r: Result<(), WezzteError>)
        ensures
            match number_check(value@) {
                Ok(()) => r is Ok,
                Err(e) => r matches Err(x) && x@ == e,
            },
    {
        if matches!(value, WidgetValue::Number(_)) {
            Ok(())
        } else {
            Err(WezzteError::invalid_param("value", to_owned_string("numerical widget requires number")))
        }
    }

    /// The configuration text of the current value.
    pub fn to_config_string(&self) -> (r: String)
        ensures
            r@ == crate::widgets::traits::config_text(self@.config.current_value),
    {
        self.config.current_value.to_config_string()
    }

    /// Whether the value differs from the initial one.
    pub fn has_changed(&self) -> (r: bool)
        ensures
            r == (self@.config.current_value != self@.initial_value),
    {
        !self.config.current_value.same_as(&self.initial_value)
    }

    /// Reset the widget to its initial value.
    pub fn reset(&mut self) -> (r: Result<(), WezzteError>)
        ensures
            r is Ok,
            final(self)@ == (NumericalView {
                config: with_current(old(self)@.config, old(self)@.initial_value),
                initial_value: old(self)@.initial_value,
            }),
    {
        self.config.current_value = self.initial_value.copy();
        Ok(())
    }

    /// Create a numerical widget from an annotation; any current value is accepted.
    pub fn from_annotation(
        id: String,
        config_key: String,
        annotation: &Annotation,
        current_value: WidgetValue,
    ) -> (r: Result<NumericalWidget, WezzteError>)
        ensures
            r matches Ok(w) && w@ == (NumericalView {
                config: config_from_annotation(id@, config_key@, annotation.params@, current_value@),
                initial_value: current_value@,
            }),
    {
        let initial_value = current_value.copy();
        let config = WidgetConfig::from_annotation(id, config_key, annotation, current_value);
        Ok(NumericalWidget { config, initial_value })
    }

    /// The UI type this widget handles.
    pub fn ui_type() -> (r: &'static str)
        ensures
            r@ == "numerical"@,
    {
        "numerical"
    }
}

/// Resetting after setting a number gives back the initial value, whatever was set.
pub proof fn law_numerical_reset_after_set(w: NumericalView, v: WVal)
    requires
        number_check(v) is Ok,
    ensures
        ({
            let after = NumericalView { config: with_current(w.config, v), initial_value: w.initial_value };
            let reset = NumericalView {
                config: with_current(after.config, after.initial_value),
                initial_value: after.initial_value,
            };
            &&& reset.config.current_value == reset.initial_value
            &&& reset == (NumericalView {
                config: with_current(w.config, w.initial_value),
                initial_value: w.initial_value,
            })
        }),
{
}

} // verus!
