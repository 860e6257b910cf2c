use vstd::prelude::*;

use crate::clipboard;
use crate::state::{history_view, AppState, AppStateView};

verus! {

/// The persisted form of a content kind.
#[derive(Clone, Copy, PartialEq, Eq, Structural, Debug)]
pub enum ClipboardType {
    Text,
    Image,
    File,
}

impl ClipboardType {
    pub open spec fn spec_into_clipboard_type(&self) -> clipboard::ClipboardType {
        match self {
            ClipboardType::Text => clipboard::ClipboardType::Text,
            ClipboardType::Image => clipboard::ClipboardType::Image,
            ClipboardType::File => clipboard::ClipboardType::File,
        }
    }

    /// The in-memory kind this persisted kind stands for.
    pub fn into_clipboard_type(&self) -> (r: clipboard::ClipboardType)
        ensures
            r == self.spec_into_clipboard_type(),
    {
        match self {
            ClipboardType::Text => clipboard::ClipboardType::Text,
            ClipboardType::Image => clipboard::ClipboardType::Image,
            ClipboardType::File => clipboard::ClipboardType::File,
        }
    }

    pub open spec fn spec_from_clipboard_type(
        clipboard_type: &clipboard::ClipboardType,
    ) -> ClipboardType {
        match clipboard_type {
            clipboard::ClipboardType::Text => ClipboardType::Text,
            clipboard::ClipboardType::Image => ClipboardType::Image,
            clipboard::ClipboardType::File => ClipboardType::File,
        }
    }

    /// The persisted kind for an in-memory kind.
    pub fn from_clipboard_type(clipboard_type: &clipboard::ClipboardType) -> (r: ClipboardType)
        ensures
            r == ClipboardType::spec_from_clipboard_type(clipboard_type),
    {
        match clipboard_type {
            clipboard::ClipboardType::Text => ClipboardType::Text,
            clipboard::ClipboardType::Image => ClipboardType::Image,
            clipboard::ClipboardType::File => ClipboardType::File,
        }
    }
}

/// One history entry in its persisted form.
#[derive(Clone, Debug)]
pub struct ClipboardData {
    pub uuid: String,
    pub data_type: ClipboardType,
    pub data: String,
    pub datetime: String,
}

/// The mathematical value of a persisted history entry.
pub ghost struct ClipboardDataView {
    pub uuid: Seq<char>,
    pub data_type: ClipboardType,
    pub data: Seq<char>,
    pub datetime: Seq<char>,
}

impl View for ClipboardData {
    type V = ClipboardDataView;

    open spec fn view(&self) -> ClipboardDataView {
        ClipboardDataView {
            uuid: self.uuid@,
            data_type: self.data_type,
            data: self.data@,
            datetime: self.datetime@,
        }
    }
}

/// Everything the application persists between runs: the history and the
/// peer's address and port.
pub struct AppData {
    pub history: Vec<ClipboardData>,
    pub server_address: Option<String>,
    pub server_port: u16,
}

/// The mathematical value of the persisted application data.
pub ghost struct AppDataView {
    pub history: Seq<ClipboardDataView>,
    pub server_address: Option<Seq<char>>,
    pub server_port: u16,
}

impl View for AppData {
    type V = AppDataView;

    open spec fn view(&self) -> AppDataView {
        AppDataView {
            history: self.history@.map_values(|d: ClipboardData| d@),
            server_address: match self.server_address {
                Some(s) => Some(s@),
                None => None,
            },
            server_port: self.server_port,
        }
    }
}

/// A persisted history entry exactly as it sits in the data file.
#[derive(Clone, Debug)]
pub struct RawClipboardData {
    pub uuid: String,
    pub data_type: ClipboardType,
    pub data: String,
    pub datetime: String,
}

/// The mathematical value of a raw persisted entry.
pub ghost struct RawClipboardDataView {
    pub uuid: Seq<char>,
    pub data_type: ClipboardType,
    pub data: Seq<char>,
    pub datetime: Seq<char>,
}

impl View for RawClipboardData {
    type V = RawClipboardDataView;

    open spec fn view(&self) -> RawClipboardDataView {
        RawClipboardDataView {
            uuid: self.uuid@,
            data_type: self.data_type,
            data: self.data@,
            datetime: self.datetime@,
        }
    }
}

/// The persisted application data exactly as it sits in the data file.
pub struct RawAppData {
    pub history: Vec<RawClipboardData>,
    pub server_address: Option<String>,
    pub server_port: u16,
}

/// The mathematical value of the raw persisted data.
pub ghost struct RawAppDataView {
    pub history: Seq<RawClipboardDataView>,
    pub server_address: Option<Seq<char>>,
    pub server_port: u16,
}

impl View for RawAppData {
    type V = RawAppDataView;

    open spec fn view(&self) -> RawAppDataView {
        RawAppDataView {
            history: self.history@.map_values(|d: RawClipboardData| d@),
            server_address: match self.server_address {
                Some(s) => Some(s@),
                None => None,
            },
            server_port: self.server_port,
        }
    }
}

/// What a raw persisted entry becomes in memory: the same fields, with the
/// payload carried through unchanged.
pub open spec fn raw_entry_view(e: RawClipboardDataView) -> ClipboardDataView {
    ClipboardDataView {
        uuid: e.uuid,
        data_type: e.data_type,
        data: e.data,
        datetime: e.datetime,
    }
}

impl RawAppData {
    /// The application data a raw data file denotes: every entry carried
    /// over field for field, address and port kept.
    pub fn convert_to_app_data(self) -> (r: AppData)
        ensures
            r@.history == self@.history.map_values(|e: RawClipboardDataView| raw_entry_view(e)),
            r@.server_address == self@.server_address,
            r@.server_port == self@.server_port,
    {
        let n = self.history.len();
        let mut history: Vec<ClipboardData> = Vec::new();
        let mut i: usize = 0;
        while i < n
            invariant
                0 <= i <= n,
                n == self.history.len(),
                history@.len() == i,
                forall|k: int|
                    0 <= k < i ==> #[trigger] history@[k]@ == raw_entry_view(self.history@[k]@),
            decreases n - i,
        {
            let e = &self.history[i];
            history.push(
                ClipboardData {
                    uuid: e.uuid.clone(),
                    data_type: e.data_type,
                    data: e.data.clone(),
                    datetime: e.datetime.clone(),
                },
            );
            i = i + 1;
        }
        proof {
            assert forall|k: int| #![trigger history@[k]] 0 <= k < n implies history@.map_values(
                |d: ClipboardData| d@,
            )[k] == self.history@.map_values(|d: RawClipboardData| d@).map_values(
                |e: RawClipboardDataView| raw_entry_view(e),
            )[k] by {
                assert(history@[k]@ == raw_entry_view(self.history@[k]@));
            }
            assert(history@.map_values(|d: ClipboardData| d@) =~= self.history@.map_values(
                |d: RawClipboardData| d@,
            ).map_values(|e: RawClipboardDataView| raw_entry_view(e)));
        }
        let server_address = match &self.server_address {
            Some(s) => Some(s.clone()),
            None => None,
        };
        AppData { history, server_address, server_port: self.server_port }
    }
}

/// What a persisted entry becomes in the live history.
pub open spec fn entry_from_config(e: ClipboardDataView) -> clipboard::ClipboardDataView {
    clipboard::ClipboardDataView {
        uuid: e.uuid,
        data_type: e.data_type.spec_into_clipboard_type(),
        data: e.data,
        datetime: e.datetime,
    }
}

/// What a live history entry is persisted as.
pub open spec fn entry_to_config(e: clipboard::ClipboardDataView) -> ClipboardDataView {
    ClipboardDataView {
        uuid: e.uuid,
        data_type: ClipboardType::spec_from_clipboard_type(&e.data_type),
        data: e.data,
        datetime: e.datetime,
    }
}

/// Hydrate the shared state from loaded application data: the history,
/// the remembered peer, and the application folder. The last applied
/// value and the send queue are untouched.
pub fn load_app_data(state: &mut AppState, data: AppData, folder_path: String)
    ensures
        final(state)@ == (AppStateView {
            clipboard_history: data@.history.map_values(
                |e: ClipboardDataView| entry_from_config(e),
            ),
            server_address: data@.server_address,
            server_port: data@.server_port,
            app_folder_path: folder_path@,
            ..old(state)@
        }),
{
    let n = data.history.len();
    let mut history: Vec<clipboard::ClipboardData> = Vec::new();
    let mut i: usize = 0;
    while i < n
        invariant
            0 <= i <= n,
            n == data.history.len(),
            history@.len() == i,
            forall|k: int|
                0 <= k < i ==> #[trigger] history@[k]@ == entry_from_config(data.history@[k]@),
        decreases n - i,
    {
        let e = &data.history[i];
        history.push(
            clipboard::ClipboardData {
                uuid: e.uuid.clone(),
                data_type: e.data_type.into_clipboard_type(),
                data: e.data.clone(),
                datetime: e.datetime.clone(),
            },
        );
        i = i + 1;
    }
    proof {
        assert forall|k: int| #![trigger history@[k]] 0 <= k < n implies history_view(history@)[k]
            == data.history@.map_values(|d: ClipboardData| d@).map_values(
            |e: ClipboardDataView| entry_from_config(e),
        )[k] by {
            assert(history@[k]@ == entry_from_config(data.history@[k]@));
        }
        assert(history_view(history@) =~= data.history@.map_values(
            |d: ClipboardData| d@,
        ).map_values(|e: ClipboardDataView| entry_from_config(e)));
    }
    state.clipboard_history = history;
    state.server_address = data.server_address;
    state.server_port = data.server_port;
    state.app_folder_path = folder_path;
}

/// The persisted form of the current state: the history entry for entry,
/// and the remembered peer. The inverse of `load_app_data` over a history
/// of persisted entries.
pub fn export_app_data(state: &AppState) -> (r: AppData)
    ensures
        r@.history == state@.clipboard_history.map_values(
            |e: clipboard::ClipboardDataView| entry_to_config(e),
        ),
        r@.server_address == state@.server_address,
        r@.server_port == state@.server_port,
{
    let n = state.clipboard_history.len();
    let mut history: Vec<ClipboardData> = Vec::new();
    let mut i: usize = 0;
    while i < n
        invariant
            0 <= i <= n,
            n == state.clipboard_history.len(),
            history@.len() == i,
            forall|k: int|
                0 <= k < i ==> #[trigger] history@[k]@ == entry_to_config(
                    state.clipboard_history@[k]@,
                ),
        decreases n - i,
    {
        let e = &state.clipboard_history[i];
        history.push(
            ClipboardData {
                uuid: e.uuid.clone(),
                data_type: ClipboardType::from_clipboard_type(&e.data_type),
                data: e.data.clone(),
                datetime: e.datetime.clone(),
            },
        );
        i = i + 1;
    }
    proof {
        assert forall|k: int| #![trigger history@[k]] 0 <= k < n implies history@.map_values(
            |d: ClipboardData| d@,
        )[k] == history_view(state.clipboard_history@).map_values(
            |e: clipboard::ClipboardDataView| entry_to_config(e),
        )[k] by {
            assert(history@[k]@ == entry_to_config(state.clipboard_history@[k]@));
        }
        assert(history@.map_values(|d: ClipboardData| d@) =~= history_view(
            state.clipboard_history@,
        ).map_values(|e: clipboard::ClipboardDataView| entry_to_config(e)));
    }
    let server_address = match &state.server_address {
        Some(s) => Some(s.clone()),
        None => None,
    };
    AppData { history, server_address, server_port: state.server_port }
}

/// Empty the history, as the user-facing wholesale delete does; nothing
/// else changes. The caller persists the emptied state.
pub fn delete_app_data(state: &mut AppState)
    ensures
        final(state)@ == (AppStateView { clipboard_history: Seq::empty(), ..old(state)@ }),
{
    clipboard::clear_clipboard_history(state);
}

} // verus!
