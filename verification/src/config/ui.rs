//! The stored record as the user interface shows it: the enabled axes and
//! the logical inputs as buttons, with readable names.

use crate::config::binary::{
    spec_from_bytes, BinaryConfig, BinaryConfigView, ConfigError, StoredAxisConfig,
    StoredLogicalInput,
};
use crate::config::wire::read16;
use crate::text::{decimal, push_decimal};
use vstd::prelude::*;
use vstd::string::StringExecFns;

verus! {

broadcast use vstd::array::group_array_axioms;

/// An axis as the user interface shows it.
#[derive(Debug, Clone, PartialEq, Eq)]
pub struct UIAxisConfig {
    pub id: u8,
    pub name: String,
    pub min_value: i32,
    pub max_value: i32,
    pub center_value: i32,
    pub deadzone: u32,
    pub curve: String,
    pub inverted: bool,
}

pub struct UIAxisConfigView {
    pub id: u8,
    pub name: Seq<char>,
    pub min_value: i32,
    pub max_value: i32,
    pub center_value: i32,
    pub deadzone: u32,
    pub curve: Seq<char>,
    pub inverted: bool,
}

impl View for UIAxisConfig {
    type V = UIAxisConfigView;

    open spec fn view(&self) -> UIAxisConfigView {
        UIAxisConfigView {
            id: self.id,
            name: self.name@,
            min_value: self.min_value,
            max_value: self.max_value,
            center_value: self.center_value,
            deadzone: self.deadzone,
            curve: self.curve@,
            inverted: self.inverted,
        }
    }
}

/// A button as the user interface shows it.
#[derive(Debug, Clone, PartialEq, Eq)]
pub struct UIButtonConfig {
    pub id: u8,
    pub name: String,
    pub function: String,
    pub enabled: bool,
}

pub struct UIButtonConfigView {
    pub id: u8,
    pub name: Seq<char>,
    pub function: Seq<char>,
    pub enabled: bool,
}

impl View for UIButtonConfig {
    type V = UIButtonConfigView;

    open spec fn view(&self) -> UIButtonConfigView {
        UIButtonConfigView {
            id: self.id,
            name: self.name@,
            function: self.function@,
            enabled: self.enabled,
        }
    }
}

/// The name of a response curve; an unknown number is shown as linear.
pub open spec fn curve_name(curve: u8) -> Seq<char> {
    if curve == 1 {
        "curve1"@
    } else if curve == 2 {
        "curve2"@
    } else if curve == 3 {
        "curve3"@
    } else {
        "linear"@
    }
}

/// The name of a button behaviour; an unknown number is shown as normal.
pub open spec fn behavior_name(behavior: u8) -> Seq<char> {
    if behavior == 1 {
        "toggle"@
    } else if behavior == 2 {
        "macro"@
    } else {
        "normal"@
    }
}

/// The name of the kind of source a logical input reads.
pub open spec fn input_type_name(input_type: u8) -> Seq<char> {
    if input_type == 1 {
        "Pin"@
    } else if input_type == 2 {
        "Matrix"@
    } else if input_type == 3 {
        "Shift Register"@
    } else {
        "Unknown"@
    }
}

/// Axis number `index` as shown: `Axis <n> (Pin <pin>)`, numbered from one,
/// centred between its limits, never inverted.
pub open spec fn axis_shown(index: int, axis: StoredAxisConfig) -> UIAxisConfigView {
    UIAxisConfigView {
        id: index as u8,
        name: "Axis "@ + decimal((index + 1) as nat) + " (Pin "@ + decimal(axis.pin as nat)
            + ")"@,
        min_value: axis.min_value as i32,
        max_value: axis.max_value as i32,
        center_value: ((axis.min_value + axis.max_value) / 2) as i32,
        deadzone: axis.deadband as u32,
        curve: curve_name(axis.curve),
        inverted: false,
    }
}

/// The enabled axes among the first `n`, as shown.
pub open spec fn axes_shown(axes: [StoredAxisConfig; 8], n: nat) -> Seq<UIAxisConfigView>
    decreases n,
{
    if n == 0 {
        Seq::empty()
    } else if axes[n - 1].enabled != 0 {
        axes_shown(axes, (n - 1) as nat).push(axis_shown(n - 1, axes[n - 1]))
    } else {
        axes_shown(axes, (n - 1) as nat)
    }
}

/// Logical input number `index` as shown: `Button <n> (<kind>)`, with the
/// pin number after the kind for an input that reads a pin. The button is
/// numbered from one, and it is enabled unless its logic is reversed.
pub open spec fn button_shown(index: int, input: StoredLogicalInput) -> UIButtonConfigView {
    let number = decimal((input.joy_button_id + 1) as nat);
    UIButtonConfigView {
        id: (index % 256) as u8,
        name: if input.input_type == 1 {
            "Button "@ + number + " ("@ + input_type_name(input.input_type) + " Pin "@ + decimal(
                read16(input.data@, 0) as nat,
            ) + ")"@
        } else {
            "Button "@ + number + " ("@ + input_type_name(input.input_type) + ")"@
        },
        function: behavior_name(input.behavior),
        enabled: input.reverse == 0,
    }
}

/// The logical inputs, as shown.
pub open spec fn buttons_shown(inputs: Seq<StoredLogicalInput>) -> Seq<UIButtonConfigView> {
    Seq::new(inputs.len(), |i: int| button_shown(i, inputs[i]))
}

/// The axes as mathematical values.
pub open spec fn axis_views(s: Seq<UIAxisConfig>) -> Seq<UIAxisConfigView> {
    Seq::new(s.len(), |i: int| s[i]@)
}

/// The buttons as mathematical values.
pub open spec fn button_views(s: Seq<UIButtonConfig>) -> Seq<UIButtonConfigView> {
    Seq::new(s.len(), |i: int| s[i]@)
}

fn curve_label(curve: u8) -> (r: &'static str)
    ensures
        r@ == curve_name(curve),
{
    if curve == 1 {
        "curve1"
    } else if curve == 2 {
        "curve2"
    } else if curve == 3 {
        "curve3"
    } else {
        "linear"
    }
}

fn behavior_label(behavior: u8) -> (r: &'static str)
    ensures
        r@ == behavior_name(behavior),
{
    if behavior == 1 {
        "toggle"
    } else if behavior == 2 {
        "macro"
    } else {
        "normal"
    }
}

fn input_type_label(input_type: u8) -> (r: &'static str)
    ensures
        r@ == input_type_name(input_type),
{
    if input_type == 1 {
        "Pin"
    } else if input_type == 2 {
        "Matrix"
    } else if input_type == 3 {
        "Shift Register"
    } else {
        "Unknown"
    }
}

fn show_axis(index: usize, axis: &StoredAxisConfig) -> (r: UIAxisConfig)
    requires
        index < 8,
    ensures
        r@ == axis_shown(index as int, *axis),
{
    let mut name = "Axis ".to_owned();
    push_decimal(&mut name, (index + 1) as u64);
    name.append(" (Pin ");
    push_decimal(&mut name, axis.pin as u64);
    name.append(")");
    UIAxisConfig {
        id: index as u8,
        name,
        min_value: axis.min_value as i32,
        max_value: axis.max_value as i32,
        center_value: ((axis.min_value as u32 + axis.max_value as u32) / 2) as i32,
        deadzone: axis.deadband as u32,
        curve: curve_label(axis.curve).to_owned(),
        inverted: false,
    }
}

fn show_button(index: usize, input: &StoredLogicalInput) -> (r: UIButtonConfig)
    ensures
        r@ == button_shown(index as int, *input),
{
    let mut name = "Button ".to_owned();
    push_decimal(&mut name, input.joy_button_id as u64 + 1);
    name.append(" (");
    name.append(input_type_label(input.input_type));
    if input.input_type == 1 {
        name.append(" Pin ");
        let pin: u16 = (input.data[0] as u16) | ((input.data[1] as u16) << 8);
        push_decimal(&mut name, pin as u64);
    }
    name.append(")");
    UIButtonConfig {
        id: (index % 256) as u8,
        name,
        function: behavior_label(input.behavior).to_owned(),
        enabled: input.reverse == 0,
    }
}

impl BinaryConfig {
    /// The enabled axes, in the order of the axis table.
    pub fn to_axis_configs(&self) -> (r: Vec<UIAxisConfig>)
        ensures
            axis_views(r@) == axes_shown(self.stored_config.axes, 8),
    {
        let mut configs: Vec<UIAxisConfig> = Vec::new();
        let mut i: usize = 0;
        assert(axis_views(configs@) =~= axes_shown(self.stored_config.axes, 0));
        while i < 8
            invariant
                i <= 8,
                axis_views(configs@) == axes_shown(self.stored_config.axes, i as nat),
            decreases 8 - i,
        {
            let axis = self.stored_config.axes[i];
            if axis.enabled != 0 {
                let ghost before = axis_views(configs@);
                let shown = show_axis(i, &axis);
                configs.push(shown);
                assert(axis_views(configs@) =~= before.push(axis_shown(i as int, axis)));
            }
            i = i + 1;
        }
        configs
    }

    /// The logical inputs as buttons, in their order.
    pub fn to_button_configs(&self) -> (r: Vec<UIButtonConfig>)
        ensures
            button_views(r@) == buttons_shown(self.logical_inputs@),
    {
        let mut configs: Vec<UIButtonConfig> = Vec::new();
        let mut i: usize = 0;
        while i < self.logical_inputs.len()
            invariant
                i <= self.logical_inputs.len(),
                button_views(configs@) == buttons_shown(self.logical_inputs@.take(i as int)),
            decreases self.logical_inputs.len() - i,
        {
            let ghost before = button_views(configs@);
            let ghost earlier = configs@;
            let ghost inputs = self.logical_inputs@;
            assert(before.len() == buttons_shown(inputs.take(i as int)).len());
            assert(configs@.len() == i);
            let shown = show_button(i, &self.logical_inputs[i]);
            let ghost shown_view = shown@;
            configs.push(shown);
            assert forall|k: int| 0 <= k < i + 1 implies button_views(configs@)[k]
                == buttons_shown(inputs.take(i + 1))[k] by {
                if k < i {
                    assert(configs@[k] == earlier[k]);
                    assert(before[k] == buttons_shown(inputs.take(i as int))[k]);
                    assert(inputs.take(i as int)[k] == inputs.take(i + 1)[k]);
                } else {
                    assert(configs@[k]@ == shown_view);
                    assert(inputs.take(i + 1)[k] == inputs[i as int]);
                }
            }
            assert(button_views(configs@) =~= buttons_shown(inputs.take(i + 1)));
            i = i + 1;
        }
        assert(self.logical_inputs@.take(self.logical_inputs@.len() as int)
            =~= self.logical_inputs@);
        configs
    }
}

/// Decodes a configuration file and shows it: the enabled axes and the
/// buttons, or what is wrong with the file.
pub fn read_parsed_config(data: &[u8]) -> (r: Result<
    (Vec<UIAxisConfig>, Vec<UIButtonConfig>),
    ConfigError,
>)
    ensures
        match r {
            Ok((axes, buttons)) => spec_from_bytes(data@) is Ok && axis_views(axes@) == axes_shown(
                spec_from_bytes(data@)->Ok_0.stored_config.axes,
                8,
            ) && button_views(buttons@) == buttons_shown(
                spec_from_bytes(data@)->Ok_0.logical_inputs,
            ),
            Err(e) => spec_from_bytes(data@) == Err::<BinaryConfigView, ConfigError>(e),
        },
{
    match BinaryConfig::from_bytes(data) {
        Ok(config) => Ok((config.to_axis_configs(), config.to_button_configs())),
        Err(e) => Err(e),
    }
}

} // verus!
