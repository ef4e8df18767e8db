use adb_client::server::ADBServer;
use adb_client::server_device::ADBServerDevice;
use adb_client::{ADBDeviceExt, RustADBError};
use vstd::prelude::*;

use crate::command::{
    command_line, help_args, keyevent_args, keyevent_command, long_tap_args, long_tap_command,
    roll_args, roll_command, size_args, size_command, swipe_args, swipe_command, tap_args,
    tap_command, text_args, text_command, help_command,
};
use crate::output::{
    dimensions_from_output, input_status, output_status, size_outcome, ControlError, Dimensions,
};

verus! {

#[verifier::external_type_specification]
#[verifier::external_body]
pub struct ExADBServer(ADBServer);

#[verifier::external_type_specification]
#[verifier::external_body]
pub struct ExADBServerDevice(ADBServerDevice);

#[verifier::external_type_specification]
#[verifier::external_body]
pub struct ExRustADBError(RustADBError);

/// Relies on ADBServer's `Default`: a handle on the local ADB server at its usual address.
#[verifier::external_body]
fn local_server() -> (r: ADBServer) {
    ADBServer::default()
}

/// Relies on ADBServer::get_device: the one device that the server lists, or an error.
#[verifier::external_body]
fn sole_device(server: &mut ADBServer) -> (r: Result<ADBServerDevice, RustADBError>) {
    server.get_device()
}

/// Relies on ADBServer::get_device_by_name: the device listed under `name`, or an error.
#[verifier::external_body]
fn named_device(server: &mut ADBServer, name: &str) -> (r: Result<ADBServerDevice, RustADBError>) {
    server.get_device_by_name(name)
}

/// Relies on ADBDeviceExt::shell_command of ADBServerDevice: runs `command` in
/// the device's shell and collects the bytes that it prints.
#[verifier::external_body]
fn run_shell(device: &mut ADBServerDevice, command: &str) -> (r: Result<Vec<u8>, RustADBError>) {
    let mut output: Vec<u8> = Vec::new();
    match device.shell_command(&command, Some(&mut output), None) {
        Ok(_) => Ok(output),
        Err(e) => Err(e),
    }
}

/// One command sent to the device and what came back: the bytes it printed,
/// or `None` when the command could not be run.
pub type Exchange = (Seq<char>, Option<Seq<u8>>);

/// `after` is `before` with one more exchange, whose command is `line`.
pub open spec fn sent_one(before: Seq<Exchange>, after: Seq<Exchange>, line: Seq<char>) -> bool {
    &&& after.len() == before.len() + 1
    &&& after.drop_last() == before
    &&& after.last().0 == line
}

/// The result of an input command, given what came back from it.
pub open spec fn input_outcome(reply: Option<Seq<u8>>) -> Result<bool, ControlError> {
    match reply {
        Some(output) => input_status(output),
        None => Err(ControlError::CommandFailed),
    }
}

/// The result of the size query, given what came back from it.
pub open spec fn dimensions_outcome(reply: Option<Seq<u8>>) -> Result<Dimensions, ControlError> {
    match reply {
        Some(output) => size_outcome(output),
        None => Err(ControlError::CommandFailed),
    }
}

/// The identifier kept for a requested one: none asked for means the empty string.
pub open spec fn requested_id(device_id: Option<String>) -> Seq<char> {
    match device_id {
        Some(id) => id@,
        None => Seq::empty(),
    }
}

/// How a device is selected for an identifier: by that name, or the server's
/// only device when the identifier is empty.
pub open spec fn selection_for(id: Seq<char>) -> Option<Seq<char>> {
    if id.len() == 0 {
        None
    } else {
        Some(id)
    }
}

/// Control of one Android device through an ADB server: input events and
/// queries, each sent as a shell command.
pub struct ADBControl {
    device_id: String,
    device: ADBServerDevice,
    selection: Ghost<Option<Seq<char>>>,
    on_local_server: Ghost<bool>,
    transcript: Ghost<Seq<Exchange>>,
}

impl ADBControl {
    /// The identifier given at construction.
    pub closed spec fn id(&self) -> Seq<char> {
        self.device_id@
    }

    /// Every command sent to the device so far, in order, with its reply.
    pub closed spec fn transcript(&self) -> Seq<Exchange> {
        self.transcript@
    }

    /// How the device was selected: `None` for the server's only device,
    /// `Some(name)` for the device listed under `name`.
    pub closed spec fn selection(&self) -> Option<Seq<char>> {
        self.selection@
    }

    /// Whether the device was selected through the local default server
    /// rather than a server handed in.
    pub closed spec fn on_local_server(&self) -> bool {
        self.on_local_server@
    }

    /// The device handle in use.
    pub closed spec fn device(&self) -> ADBServerDevice {
        self.device
    }

    /// Selects a device on `server` (the local server when `None`): the one
    /// named `device_id`, or the only device when no identifier or an empty
    /// one is given. Fails when no such device can be had.
    pub fn new(server: Option<ADBServer>, device_id: Option<String>) -> (r: Result<
        ADBControl,
        ControlError,
    >)
        ensures
            r is Ok ==> r->Ok_0.id() == requested_id(device_id),
            r is Ok ==> r->Ok_0.selection() == selection_for(requested_id(device_id)),
            r is Ok ==> r->Ok_0.on_local_server() == (server is None),
            r is Ok ==> r->Ok_0.transcript().len() == 0,
            r is Err ==> r->Err_0 == ControlError::DeviceUnavailable,
    {
        let ghost local = server is None;
        let mut server = match server {
            Some(s) => s,
            None => local_server(),
        };
        let device_id = match device_id {
            Some(id) => id,
            None => String::new(),
        };
        let ghost mut selection: Option<Seq<char>> = None;
        let selected = if device_id.as_str().is_empty() {
            sole_device(&mut server)
        } else {
            proof {
                selection = Some(device_id@);
            }
            named_device(&mut server, device_id.as_str())
        };
        Self::from_selection(selected, device_id, Ghost(selection), Ghost(local))
    }

    /// Builds the control from the outcome of one device selection: fails,
    /// with no other attempt, exactly when the selection failed.
    fn from_selection(
        selected: Result<ADBServerDevice, RustADBError>,
        device_id: String,
        selection: Ghost<Option<Seq<char>>>,
        on_local_server: Ghost<bool>,
    ) -> (r: Result<ADBControl, ControlError>)
        ensures
            r is Ok <==> selected is Ok,
            r is Ok ==> r->Ok_0.device() == selected->Ok_0,
            r is Ok ==> r->Ok_0.id() == device_id@,
            r is Ok ==> r->Ok_0.selection() == selection@,
            r is Ok ==> r->Ok_0.on_local_server() == on_local_server@,
            r is Ok ==> r->Ok_0.transcript().len() == 0,
            r is Err ==> r->Err_0 == ControlError::DeviceUnavailable,
    {
        match selected {
            Ok(device) => Ok(
                ADBControl {
                    device_id,
                    device,
                    selection,
                    on_local_server,
                    transcript: Ghost(Seq::empty()),
                },
            ),
            Err(_) => Err(ControlError::DeviceUnavailable),
        }
    }

    /// The identifier given at construction, empty when none was.
    pub fn get_device_id(&self) -> (r: &String)
        ensures
            r@ == self.id(),
    {
        &self.device_id
    }

    fn exchange(&mut self, command: &String) -> (r: Result<Vec<u8>, ControlError>)
        ensures
            sent_one(old(self).transcript(), final(self).transcript(), command@),
            final(self).id() == old(self).id(),
            r is Ok ==> final(self).transcript().last().1 == Some(r->Ok_0@),
            r is Err ==> r->Err_0 == ControlError::CommandFailed,
            r is Err ==> final(self).transcript().last().1 is None,
    {
        let ghost before = self.transcript@;
        let reply = run_shell(&mut self.device, command.as_str());
        match reply {
            Ok(output) => {
                self.transcript = Ghost(self.transcript@.push((command@, Some(output@))));
                assert(self.transcript@.drop_last() =~= before);
                Ok(output)
            },
            Err(_) => {
                self.transcript = Ghost(self.transcript@.push((command@, None)));
                assert(self.transcript@.drop_last() =~= before);
                Err(ControlError::CommandFailed)
            },
        }
    }

    fn send_input(&mut self, command: &String) -> (r: Result<bool, ControlError>)
        ensures
            sent_one(old(self).transcript(), final(self).transcript(), command@),
            final(self).id() == old(self).id(),
            r == input_outcome(final(self).transcript().last().1),
    {
        match self.exchange(command) {
            Ok(output) => output_status(output.as_slice()),
            Err(e) => Err(e),
        }
    }

    /// Runs `input --help` and hands back what it printed.
    pub fn input_help(&mut self) -> (r: Result<Vec<u8>, ControlError>)
        ensures
            sent_one(old(self).transcript(), final(self).transcript(), command_line(help_args())),
            final(self).id() == old(self).id(),
            r is Ok ==> final(self).transcript().last().1 == Some(r->Ok_0@),
            r is Err ==> r->Err_0 == ControlError::CommandFailed,
            r is Err ==> final(self).transcript().last().1 is None,
    {
        let command = help_command();
        self.exchange(&command)
    }

    /// Asks the device for its physical screen size (`wm size`).
    pub fn get_device_dimensions(&mut self) -> (r: Result<Dimensions, ControlError>)
        ensures
            sent_one(old(self).transcript(), final(self).transcript(), command_line(size_args())),
            final(self).id() == old(self).id(),
            r == dimensions_outcome(final(self).transcript().last().1),
    {
        let command = size_command();
        match self.exchange(&command) {
            Ok(output) => dimensions_from_output(output.as_slice()),
            Err(e) => Err(e),
        }
    }

    /// Taps at `(x, y)`; `true` when the command printed nothing.
    pub fn tap(&mut self, x: u32, y: u32) -> (r: Result<bool, ControlError>)
        ensures
            sent_one(old(self).transcript(), final(self).transcript(), command_line(tap_args(x, y))),
            final(self).id() == old(self).id(),
            r == input_outcome(final(self).transcript().last().1),
    {
        let command = tap_command(x, y);
        self.send_input(&command)
    }

    /// Swipes from `(x1, y1)` to `(x2, y2)` over `duration` ms; `true` when the
    /// command printed nothing.
    pub fn swipe(&mut self, x1: u32, y1: u32, x2: u32, y2: u32, duration: u32) -> (r: Result<
        bool,
        ControlError,
    >)
        ensures
            sent_one(
                old(self).transcript(),
                final(self).transcript(),
                command_line(swipe_args(x1, y1, x2, y2, duration)),
            ),
            final(self).id() == old(self).id(),
            r == input_outcome(final(self).transcript().last().1),
    {
        let command = swipe_command(x1, y1, x2, y2, duration);
        self.send_input(&command)
    }

    /// Presses `(x, y)` for `duration` ms; `true` when the command printed nothing.
    pub fn long_tap(&mut self, x: u32, y: u32, duration: u32) -> (r: Result<bool, ControlError>)
        ensures
            sent_one(
                old(self).transcript(),
                final(self).transcript(),
                command_line(long_tap_args(x, y, duration)),
            ),
            final(self).id() == old(self).id(),
            r == input_outcome(final(self).transcript().last().1),
    {
        let command = long_tap_command(x, y, duration);
        self.send_input(&command)
    }

    /// Types `text`, its double quotes escaped; `true` when the command printed nothing.
    pub fn text(&mut self, text: String) -> (r: Result<bool, ControlError>)
        ensures
            sent_one(old(self).transcript(), final(self).transcript(), command_line(text_args(text@))),
            final(self).id() == old(self).id(),
            r == input_outcome(final(self).transcript().last().1),
    {
        let command = text_command(text.as_str());
        self.send_input(&command)
    }

    /// Sends the key event `keycode`, held when `longpress` is set; `true` when
    /// the command printed nothing.
    pub fn keyevent(&mut self, keycode: &str, longpress: bool) -> (r: Result<bool, ControlError>)
        ensures
            sent_one(
                old(self).transcript(),
                final(self).transcript(),
                command_line(keyevent_args(keycode@, longpress)),
            ),
            final(self).id() == old(self).id(),
            r == input_outcome(final(self).transcript().last().1),
    {
        let command = keyevent_command(keycode, longpress);
        self.send_input(&command)
    }

    /// Rolls the trackball by `(x, y)`; `true` when the command printed nothing.
    pub fn roll(&mut self, x: u32, y: u32) -> (r: Result<bool, ControlError>)
        ensures
            sent_one(old(self).transcript(), final(self).transcript(), command_line(roll_args(x, y))),
            final(self).id() == old(self).id(),
            r == input_outcome(final(self).transcript().last().1),
    {
        let command = roll_command(x, y);
        self.send_input(&command)
    }
}

/// The identifier reported after any run of operations is the one given at
/// construction (empty when none was): `states` are the control's successive
/// values, the first as `new` returned it, each next one after an operation,
/// and every operation keeps `id()`.
pub proof fn device_id_is_kept(states: Seq<ADBControl>, device_id: Option<String>)
    requires
        states.len() > 0,
        states[0].id() == requested_id(device_id),
        forall|i: int| 0 <= i < states.len() - 1 ==> #[trigger] states[i + 1].id() == states[i].id(),
    ensures
        forall|i: int| 0 <= i < states.len() ==> #[trigger] states[i].id() == requested_id(device_id),
    decreases states.len(),
{
    if states.len() > 1 {
        let prefix = states.drop_last();
        assert forall|i: int| 0 <= i < prefix.len() - 1 implies #[trigger] prefix[i + 1].id()
            == prefix[i].id() by {
            assert(prefix[i + 1] == states[i + 1]);
            assert(states[i + 1].id() == states[i].id());
        }
        device_id_is_kept(prefix, device_id);
        assert forall|i: int| 0 <= i < states.len() implies #[trigger] states[i].id()
            == requested_id(device_id) by {
            if i < states.len() - 1 {
                assert(states[i] == prefix[i]);
            } else {
                assert(prefix[i - 1] == states[i - 1]);
                assert(states[(i - 1) + 1].id() == states[i - 1].id());
            }
        }
    }
}

} // verus!
