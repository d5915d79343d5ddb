//! The settings that can be copied between the games' config files.

use super::ConfigSection;
use crate::text::{chars_of, seq_eq, string_from_str};
use vstd::prelude::*;

verus! {

/// How many settings there are.
pub const FIELD_COUNT: usize = 50;

/// One setting: its key in the config files, its label in the UI and the
/// section of the UI that shows it.
#[derive(Debug, Clone)]
pub struct FieldDefinition {
    pub key: String,
    pub label: String,
    pub section: ConfigSection,
}

/// The keys of all settings, in the order the UI lists them.
pub open spec fn field_keys() -> Seq<Seq<char>> {
    seq![
        "mouse_sensitivity"@,
        "mouse_use_per_scope_sensitivity_scalars"@,
        "mouse_zoomed_sensitivity_scalar_0"@,
        "mouse_zoomed_sensitivity_scalar_1"@,
        "mouse_zoomed_sensitivity_scalar_2"@,
        "mouse_zoomed_sensitivity_scalar_3"@,
        "mouse_zoomed_sensitivity_scalar_4"@,
        "mouse_zoomed_sensitivity_scalar_5"@,
        "mouse_zoomed_sensitivity_scalar_6"@,
        "mouse_zoomed_sensitivity_scalar_7"@,
        "cl_fovScale"@,
        "gamepad_aim_speed"@,
        "gamepad_aim_speed_ads_0"@,
        "gamepad_aim_speed_ads_1"@,
        "gamepad_aim_speed_ads_2"@,
        "gamepad_aim_speed_ads_3"@,
        "gamepad_aim_speed_ads_4"@,
        "gamepad_aim_speed_ads_5"@,
        "gamepad_aim_speed_ads_6"@,
        "gamepad_aim_speed_ads_7"@,
        "gamepad_ads_advanced_sensitivity_scalar_0"@,
        "gamepad_ads_advanced_sensitivity_scalar_1"@,
        "gamepad_ads_advanced_sensitivity_scalar_2"@,
        "gamepad_ads_advanced_sensitivity_scalar_3"@,
        "gamepad_ads_advanced_sensitivity_scalar_4"@,
        "gamepad_ads_advanced_sensitivity_scalar_5"@,
        "gamepad_ads_advanced_sensitivity_scalar_6"@,
        "gamepad_ads_advanced_sensitivity_scalar_7"@,
        "gamepad_use_per_scope_sensitivity_scalars"@,
        "gamepad_use_per_scope_ads_settings"@,
        "gamepad_custom_enabled"@,
        "gamepad_custom_ads_pitch"@,
        "gamepad_custom_ads_yaw"@,
        "gamepad_custom_ads_turn_pitch"@,
        "gamepad_custom_ads_turn_yaw"@,
        "gamepad_custom_ads_turn_time"@,
        "gamepad_custom_ads_turn_delay"@,
        "gamepad_custom_hip_pitch"@,
        "gamepad_custom_hip_yaw"@,
        "gamepad_custom_hip_turn_pitch"@,
        "gamepad_custom_hip_turn_yaw"@,
        "gamepad_custom_hip_turn_time"@,
        "gamepad_custom_hip_turn_delay"@,
        "gamepad_custom_curve"@,
        "gamepad_custom_deadzone_in"@,
        "gamepad_custom_deadzone_out"@,
        "gamepad_deadzone_index_look"@,
        "gamepad_deadzone_index_move"@,
        "gamepad_look_curve"@,
        "gamepad_trigger_threshold"@
    ]
}

/// The labels of all settings, in the same order.
pub open spec fn field_labels() -> Seq<Seq<char>> {
    seq![
        "鼠标灵敏度"@,
        "启用每倍镜 ADS 鼠标灵敏度"@,
        "ADS 鼠标灵敏度加成（默认 / 1x 光学缩放 / 瞄具）"@,
        "2x 光学缩放 ADS 鼠标灵敏度加成"@,
        "3x 光学缩放 ADS 鼠标灵敏度加成"@,
        "4x 光学缩放 ADS 鼠标灵敏度加成"@,
        "6x 光学缩放 ADS 鼠标灵敏度加成"@,
        "8x 光学缩放 ADS 鼠标灵敏度加成"@,
        "10x 光学缩放 ADS 鼠标灵敏度加成"@,
        "未使用瞄具的 ADS 鼠标灵敏度加成（保留项）"@,
        "视野 (FOV)"@,
        "视线灵敏度"@,
        "ADS 视线灵敏度（默认 / 1x 光学缩放 / 瞄具）"@,
        "2x 光学缩放 ADS 视线灵敏度"@,
        "3x 光学缩放 ADS 视线灵敏度"@,
        "4x 光学缩放 ADS 视线灵敏度"@,
        "6x 光学缩放 ADS 视线灵敏度"@,
        "8x 光学缩放 ADS 视线灵敏度"@,
        "10x 光学缩放 ADS 视线灵敏度"@,
        "未使用瞄具的 ADS 视线灵敏度（保留项）"@,
        "1x 光学缩放 / 瞄具 ADS 灵敏度加成"@,
        "2x 光学缩放 ADS 灵敏度加成"@,
        "3x 光学缩放 ADS 灵敏度加成"@,
        "4x 光学缩放 ADS 灵敏度加成"@,
        "6x 光学缩放 ADS 灵敏度加成"@,
        "8x 光学缩放 ADS 灵敏度加成"@,
        "10x 光学缩放 ADS 灵敏度加成"@,
        "未使用瞄具的 ADS 灵敏度加成（保留项）"@,
        "启用每倍镜 ADS 灵敏度倍率"@,
        "启用每倍镜 ADS 视线灵敏度"@,
        "自定义视角控制（ALC）"@,
        "ALC ADS 上下移动速度"@,
        "ALC ADS 左右移动速度"@,
        "ALC ADS 转向额外上下移动"@,
        "ALC ADS 转向额外左右移动"@,
        "ALC ADS 转向启动时间"@,
        "ALC ADS 转向启动延迟"@,
        "ALC 上下移动速度"@,
        "ALC 左右移动速度"@,
        "ALC 转向额外上下移动"@,
        "ALC 转向额外左右移动"@,
        "ALC 转向启动时间"@,
        "ALC 转向启动延迟"@,
        "ALC 响应曲线"@,
        "ALC 死区"@,
        "ALC 外部阈值"@,
        "视野死角"@,
        "移动死角"@,
        "基础响应曲线"@,
        "扳机键盲区"@
    ]
}

/// The sections of all settings, in the same order.
pub open spec fn field_sections() -> Seq<ConfigSection> {
    seq![
        ConfigSection::MouseKeyboard,
        ConfigSection::MouseKeyboard,
        ConfigSection::MouseKeyboard,
        ConfigSection::MouseKeyboard,
        ConfigSection::MouseKeyboard,
        ConfigSection::MouseKeyboard,
        ConfigSection::MouseKeyboard,
        ConfigSection::MouseKeyboard,
        ConfigSection::MouseKeyboard,
        ConfigSection::MouseKeyboard,
        ConfigSection::Fov,
        ConfigSection::Controller,
        ConfigSection::Controller,
        ConfigSection::Controller,
        ConfigSection::Controller,
        ConfigSection::Controller,
        ConfigSection::Controller,
        ConfigSection::Controller,
        ConfigSection::Controller,
        ConfigSection::Controller,
        ConfigSection::Controller,
        ConfigSection::Controller,
        ConfigSection::Controller,
        ConfigSection::Controller,
        ConfigSection::Controller,
        ConfigSection::Controller,
        ConfigSection::Controller,
        ConfigSection::Controller,
        ConfigSection::Controller,
        ConfigSection::Controller,
        ConfigSection::Controller,
        ConfigSection::Controller,
        ConfigSection::Controller,
        ConfigSection::Controller,
        ConfigSection::Controller,
        ConfigSection::Controller,
        ConfigSection::Controller,
        ConfigSection::Controller,
        ConfigSection::Controller,
        ConfigSection::Controller,
        ConfigSection::Controller,
        ConfigSection::Controller,
        ConfigSection::Controller,
        ConfigSection::Controller,
        ConfigSection::Controller,
        ConfigSection::Controller,
        ConfigSection::Controller,
        ConfigSection::Controller,
        ConfigSection::Controller,
        ConfigSection::Controller
    ]
}

/// The position of the first setting at or after `i` whose key is `key`.
pub open spec fn field_index_from(key: Seq<char>, i: int) -> Option<int>
    decreases FIELD_COUNT - i,
{
    if i < 0 || i >= FIELD_COUNT {
        None
    } else if field_keys()[i] == key {
        Some(i)
    } else {
        field_index_from(key, i + 1)
    }
}

/// The position of `key` among the settings, if it is one.
pub open spec fn field_index(key: Seq<char>) -> Option<int> {
    field_index_from(key, 0)
}

/// `defs` lists every setting, in order.
pub open spec fn is_field_table(defs: Seq<FieldDefinition>) -> bool {
    &&& defs.len() == FIELD_COUNT
    &&& forall|i: int|
        0 <= i < FIELD_COUNT ==> {
            &&& (#[trigger] defs[i]).key@ == field_keys()[i]
            &&& defs[i].label@ == field_labels()[i]
            &&& defs[i].section == field_sections()[i]
        }
}

fn field(key: &str, label: &str, section: ConfigSection) -> (d: FieldDefinition)
    ensures
        d.key@ == key@,
        d.label@ == label@,
        d.section == section,
{
    FieldDefinition { key: string_from_str(key), label: string_from_str(label), section }
}

/// Every setting, in the order the UI lists them.
#[verifier::rlimit(60)]
pub fn field_definitions() -> (defs: Vec<FieldDefinition>)
    ensures
        is_field_table(defs@),
{
    let mut defs: Vec<FieldDefinition> = Vec::new();
    defs.push(field("mouse_sensitivity", "鼠标灵敏度", ConfigSection::MouseKeyboard));
    defs.push(field("mouse_use_per_scope_sensitivity_scalars", "启用每倍镜 ADS 鼠标灵敏度", ConfigSection::MouseKeyboard));
    defs.push(field("mouse_zoomed_sensitivity_scalar_0", "ADS 鼠标灵敏度加成（默认 / 1x 光学缩放 / 瞄具）", ConfigSection::MouseKeyboard));
    defs.push(field("mouse_zoomed_sensitivity_scalar_1", "2x 光学缩放 ADS 鼠标灵敏度加成", ConfigSection::MouseKeyboard));
    defs.push(field("mouse_zoomed_sensitivity_scalar_2", "3x 光学缩放 ADS 鼠标灵敏度加成", ConfigSection::MouseKeyboard));
    defs.push(field("mouse_zoomed_sensitivity_scalar_3", "4x 光学缩放 ADS 鼠标灵敏度加成", ConfigSection::MouseKeyboard));
    defs.push(field("mouse_zoomed_sensitivity_scalar_4", "6x 光学缩放 ADS 鼠标灵敏度加成", ConfigSection::MouseKeyboard));
    defs.push(field("mouse_zoomed_sensitivity_scalar_5", "8x 光学缩放 ADS 鼠标灵敏度加成", ConfigSection::MouseKeyboard));
    defs.push(field("mouse_zoomed_sensitivity_scalar_6", "10x 光学缩放 ADS 鼠标灵敏度加成", ConfigSection::MouseKeyboard));
    defs.push(field("mouse_zoomed_sensitivity_scalar_7", "未使用瞄具的 ADS 鼠标灵敏度加成（保留项）", ConfigSection::MouseKeyboard));
    defs.push(field("cl_fovScale", "视野 (FOV)", ConfigSection::Fov));
    defs.push(field("gamepad_aim_speed", "视线灵敏度", ConfigSection::Controller));
    defs.push(field("gamepad_aim_speed_ads_0", "ADS 视线灵敏度（默认 / 1x 光学缩放 / 瞄具）", ConfigSection::Controller));
    defs.push(field("gamepad_aim_speed_ads_1", "2x 光学缩放 ADS 视线灵敏度", ConfigSection::Controller));
    defs.push(field("gamepad_aim_speed_ads_2", "3x 光学缩放 ADS 视线灵敏度", ConfigSection::Controller));
    defs.push(field("gamepad_aim_speed_ads_3", "4x 光学缩放 ADS 视线灵敏度", ConfigSection::Controller));
    defs.push(field("gamepad_aim_speed_ads_4", "6x 光学缩放 ADS 视线灵敏度", ConfigSection::Controller));
    defs.push(field("gamepad_aim_speed_ads_5", "8x 光学缩放 ADS 视线灵敏度", ConfigSection::Controller));
    defs.push(field("gamepad_aim_speed_ads_6", "10x 光学缩放 ADS 视线灵敏度", ConfigSection::Controller));
    defs.push(field("gamepad_aim_speed_ads_7", "未使用瞄具的 ADS 视线灵敏度（保留项）", ConfigSection::Controller));
    defs.push(field("gamepad_ads_advanced_sensitivity_scalar_0", "1x 光学缩放 / 瞄具 ADS 灵敏度加成", ConfigSection::Controller));
    defs.push(field("gamepad_ads_advanced_sensitivity_scalar_1", "2x 光学缩放 ADS 灵敏度加成", ConfigSection::Controller));
    defs.push(field("gamepad_ads_advanced_sensitivity_scalar_2", "3x 光学缩放 ADS 灵敏度加成", ConfigSection::Controller));
    defs.push(field("gamepad_ads_advanced_sensitivity_scalar_3", "4x 光学缩放 ADS 灵敏度加成", ConfigSection::Controller));
    defs.push(field("gamepad_ads_advanced_sensitivity_scalar_4", "6x 光学缩放 ADS 灵敏度加成", ConfigSection::Controller));
    defs.push(field("gamepad_ads_advanced_sensitivity_scalar_5", "8x 光学缩放 ADS 灵敏度加成", ConfigSection::Controller));
    defs.push(field("gamepad_ads_advanced_sensitivity_scalar_6", "10x 光学缩放 ADS 灵敏度加成", ConfigSection::Controller));
    defs.push(field("gamepad_ads_advanced_sensitivity_scalar_7", "未使用瞄具的 ADS 灵敏度加成（保留项）", ConfigSection::Controller));
    defs.push(field("gamepad_use_per_scope_sensitivity_scalars", "启用每倍镜 ADS 灵敏度倍率", ConfigSection::Controller));
    defs.push(field("gamepad_use_per_scope_ads_settings", "启用每倍镜 ADS 视线灵敏度", ConfigSection::Controller));
    defs.push(field("gamepad_custom_enabled", "自定义视角控制（ALC）", ConfigSection::Controller));
    defs.push(field("gamepad_custom_ads_pitch", "ALC ADS 上下移动速度", ConfigSection::Controller));
    defs.push(field("gamepad_custom_ads_yaw", "ALC ADS 左右移动速度", ConfigSection::Controller));
    defs.push(field("gamepad_custom_ads_turn_pitch", "ALC ADS 转向额外上下移动", ConfigSection::Controller));
    defs.push(field("gamepad_custom_ads_turn_yaw", "ALC ADS 转向额外左右移动", ConfigSection::Controller));
    defs.push(field("gamepad_custom_ads_turn_time", "ALC ADS 转向启动时间", ConfigSection::Controller));
    defs.push(field("gamepad_custom_ads_turn_delay", "ALC ADS 转向启动延迟", ConfigSection::Controller));
    defs.push(field("gamepad_custom_hip_pitch", "ALC 上下移动速度", ConfigSection::Controller));
    defs.push(field("gamepad_custom_hip_yaw", "ALC 左右移动速度", ConfigSection::Controller));
    defs.push(field("gamepad_custom_hip_turn_pitch", "ALC 转向额外上下移动", ConfigSection::Controller));
    defs.push(field("gamepad_custom_hip_turn_yaw", "ALC 转向额外左右移动", ConfigSection::Controller));
    defs.push(field("gamepad_custom_hip_turn_time", "ALC 转向启动时间", ConfigSection::Controller));
    defs.push(field("gamepad_custom_hip_turn_delay", "ALC 转向启动延迟", ConfigSection::Controller));
    defs.push(field("gamepad_custom_curve", "ALC 响应曲线", ConfigSection::Controller));
    defs.push(field("gamepad_custom_deadzone_in", "ALC 死区", ConfigSection::Controller));
    defs.push(field("gamepad_custom_deadzone_out", "ALC 外部阈值", ConfigSection::Controller));
    defs.push(field("gamepad_deadzone_index_look", "视野死角", ConfigSection::Controller));
    defs.push(field("gamepad_deadzone_index_move", "移动死角", ConfigSection::Controller));
    defs.push(field("gamepad_look_curve", "基础响应曲线", ConfigSection::Controller));
    defs.push(field("gamepad_trigger_threshold", "扳机键盲区", ConfigSection::Controller));
    assert(defs@.len() == FIELD_COUNT);
    assert forall|i: int| 0 <= i < FIELD_COUNT implies {
        &&& (#[trigger] defs@[i]).key@ == field_keys()[i]
        &&& defs@[i].label@ == field_labels()[i]
        &&& defs@[i].section == field_sections()[i]
    } by {
        if i == 0 {} else if i == 1 {} else if i == 2 {} else if i == 3 {} else if i == 4 {} else if i == 5 {} else if i == 6 {} else if i == 7 {} else if i == 8 {} else if i == 9 {} else if i == 10 {} else if i == 11 {} else if i == 12 {} else if i == 13 {} else if i == 14 {} else if i == 15 {} else if i == 16 {} else if i == 17 {} else if i == 18 {} else if i == 19 {} else if i == 20 {} else if i == 21 {} else if i == 22 {} else if i == 23 {} else if i == 24 {} else if i == 25 {} else if i == 26 {} else if i == 27 {} else if i == 28 {} else if i == 29 {} else if i == 30 {} else if i == 31 {} else if i == 32 {} else if i == 33 {} else if i == 34 {} else if i == 35 {} else if i == 36 {} else if i == 37 {} else if i == 38 {} else if i == 39 {} else if i == 40 {} else if i == 41 {} else if i == 42 {} else if i == 43 {} else if i == 44 {} else if i == 45 {} else if i == 46 {} else if i == 47 {} else if i == 48 {} else {}
    }
    defs
}

/// A copy of a setting's definition.
pub fn copy_definition(d: &FieldDefinition) -> (c: FieldDefinition)
    ensures
        c.key@ == d.key@,
        c.label@ == d.label@,
        c.section == d.section,
{
    FieldDefinition { key: d.key.clone(), label: d.label.clone(), section: d.section }
}

/// The position of the setting whose key is `key`.
pub fn find_field(defs: &Vec<FieldDefinition>, key: &[char]) -> (r: Option<usize>)
    requires
        is_field_table(defs@),
    ensures
        match field_index(key@) {
            Some(i) => r == Some(i as usize),
            None => r is None,
        },
{
    let mut i: usize = 0;
    while i < defs.len()
        invariant
            i <= FIELD_COUNT,
            is_field_table(defs@),
            field_index(key@) == field_index_from(key@, i as int),
        decreases FIELD_COUNT - i,
    {
        let k = chars_of(defs[i].key.as_str());
        if seq_eq(&k, key) {
            return Some(i);
        }
        i = i + 1;
    }
    None
}

} // verus!
