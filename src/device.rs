//! Device records as one listing reports them.
use vstd::prelude::*;

use crate::text::same_text;

verus! {

/// The sharing state of a device, as the backend tool reports it.
#[derive(Clone, Copy, Debug, PartialEq, Eq, Structural)]
pub enum DeviceState {
    NotShared,
    Shared,
    Attached,
    Unknown,
}

/// One row of a device listing.
#[derive(Clone, Debug)]
pub struct DeviceRecord {
    pub bus_id: String,
    pub description: String,
    pub state: DeviceState,
}

/// What a `DeviceRecord` holds, as plain sequences.
pub struct DeviceRecordView {
    pub bus_id: Seq<char>,
    pub description: Seq<char>,
    pub state: DeviceState,
}

impl View for DeviceRecord {
    type V = DeviceRecordView;

    open spec fn view(&self) -> DeviceRecordView {
        DeviceRecordView { bus_id: self.bus_id@, description: self.description@, state: self.state }
    }
}

/// The views of a sequence of records.
pub open spec fn records_view(v: Seq<DeviceRecord>) -> Seq<DeviceRecordView> {
    v.map_values(|r: DeviceRecord| r@)
}

/// The state that the text of a listing's state column stands for.
pub open spec fn state_of_text(raw: Seq<char>) -> DeviceState {
    if raw == "Not shared"@ {
        DeviceState::NotShared
    } else if raw == "Shared"@ || raw == "Shared (forced)"@ {
        DeviceState::Shared
    } else if raw == "Attached"@ {
        DeviceState::Attached
    } else {
        DeviceState::Unknown
    }
}

/// Classifies the text of a listing's state column.
pub fn classify_state(raw: &str) -> (r: DeviceState)
    ensures
        r == state_of_text(raw@),
{
    if same_text(raw, "Not shared") {
        DeviceState::NotShared
    } else if same_text(raw, "Shared") || same_text(raw, "Shared (forced)") {
        DeviceState::Shared
    } else if same_text(raw, "Attached") {
        DeviceState::Attached
    } else {
        DeviceState::Unknown
    }
}

impl DeviceState {
    /// The text shown for the state.
    pub fn label(&self) -> (r: &'static str)
        ensures
            *self == DeviceState::NotShared ==> r@ == "Not shared"@,
            *self == DeviceState::Shared ==> r@ == "Shared"@,
            *self == DeviceState::Attached ==> r@ == "Attached"@,
            *self == DeviceState::Unknown ==> r@ == "Unknown"@,
    {
        match self {
            DeviceState::NotShared => "Not shared",
            DeviceState::Shared => "Shared",
            DeviceState::Attached => "Attached",
            DeviceState::Unknown => "Unknown",
        }
    }
}

} // verus!
