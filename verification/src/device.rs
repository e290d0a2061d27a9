//! The normalized device data model: identity and child-outlet labels, the
//! two device shapes, and the plug-to-child normalization rule.

use vstd::prelude::*;

verus! {

/// One power-measurable outlet as reported by a device: either the sole
/// outlet of a single plug or one socket of a power strip.
pub struct ChildDevice {
    pub device_id: String,
    pub nickname: String,
    pub position: u8,
}

/// Stable identity of one physical device, re-read on every refresh.
pub struct DeviceInfo {
    pub power_strip_id: String,
    pub model: String,
    pub firmware_version: String,
}

/// Label set of one `power_use_watts` series.
pub struct PowerUse {
    pub power_strip_id: String,
    pub device_id: String,
    pub nickname: String,
    pub position: u8,
}

/// Mathematical value of a `ChildDevice`.
pub ghost struct ChildKey {
    pub device_id: Seq<char>,
    pub nickname: Seq<char>,
    pub position: u8,
}

/// Mathematical value of a `DeviceInfo` label set.
pub ghost struct InfoKey {
    pub power_strip_id: Seq<char>,
    pub model: Seq<char>,
    pub firmware_version: Seq<char>,
}

/// Mathematical value of a `PowerUse` label set.
pub ghost struct PowerKey {
    pub power_strip_id: Seq<char>,
    pub device_id: Seq<char>,
    pub nickname: Seq<char>,
    pub position: u8,
}

impl View for ChildDevice {
    type V = ChildKey;

    open spec fn view(&self) -> ChildKey {
        ChildKey {
            device_id: self.device_id@,
            nickname: self.nickname@,
            position: self.position,
        }
    }
}

impl View for DeviceInfo {
    type V = InfoKey;

    open spec fn view(&self) -> InfoKey {
        InfoKey {
            power_strip_id: self.power_strip_id@,
            model: self.model@,
            firmware_version: self.firmware_version@,
        }
    }
}

impl View for PowerUse {
    type V = PowerKey;

    open spec fn view(&self) -> PowerKey {
        PowerKey {
            power_strip_id: self.power_strip_id@,
            device_id: self.device_id@,
            nickname: self.nickname@,
            position: self.position,
        }
    }
}

/// The two device shapes the exporter understands.
pub enum DeviceKind {
    Plug,
    PowerStrip,
}

/// Which device shape a reported model string belongs to; `None` marks an
/// unsupported model, a fatal configuration error at startup.
pub open spec fn spec_model_kind(model: Seq<char>) -> Option<DeviceKind> {
    if model == "P304M"@ {
        Some(DeviceKind::PowerStrip)
    } else if model == "P110M"@ {
        Some(DeviceKind::Plug)
    } else {
        None
    }
}

/// Resolves a probed model string to a device shape.
pub fn model_kind(model: &String) -> (r: Option<DeviceKind>)
    ensures
        r == spec_model_kind(model@),
{
    if *model == String::from_str("P304M") {
        Some(DeviceKind::PowerStrip)
    } else if *model == String::from_str("P110M") {
        Some(DeviceKind::Plug)
    } else {
        None
    }
}

/// The child listing of a single plug: the plug itself as the one synthetic
/// child, always at position 0 whatever the vendor reports elsewhere.
pub fn plug_children(device_id: String, nickname: String) -> (r: Vec<ChildDevice>)
    ensures
        r@.len() == 1,
        r@[0]@ == (ChildKey { device_id: device_id@, nickname: nickname@, position: 0 }),
{
    let child = ChildDevice { device_id, nickname, position: 0 };
    let mut out: Vec<ChildDevice> = Vec::new();
    out.push(child);
    out
}

} // verus!
