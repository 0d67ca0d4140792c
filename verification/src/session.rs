//! The device session: the instrument's command vocabulary and the one piece
//! of state that is kept about the device.
//!
//! Each operation returns the command line that has to reach the device. The
//! session itself sends nothing.

use vstd::prelude::*;
use vstd::string::*;

verus! {

/// Starts the acquisition.
pub open spec fn acquire_start_command() -> Seq<char> {
    "ACQ:START"@
}

/// Stops the acquisition.
pub open spec fn acquire_stop_command() -> Seq<char> {
    "ACQ:STOP"@
}

/// Resets the acquisition.
pub open spec fn acquire_reset_command() -> Seq<char> {
    "ACQ:RST"@
}

/// Asks for the acquired data of the first source. The device answers with
/// one line.
pub open spec fn acquire_data_query() -> Seq<char> {
    "ACQ:SOUR1:DATA?"@
}

/// Switches the generator's first output on.
pub open spec fn generator_start_command() -> Seq<char> {
    "OUTPUT1:STATE ON"@
}

/// Switches the generator's first output off.
pub open spec fn generator_stop_command() -> Seq<char> {
    "OUTPUT1:STATE OFF"@
}

/// Selects the waveform `form` of the generator's first output. The name is
/// inserted as it is.
pub open spec fn generator_form_command(form: Seq<char>) -> Seq<char> {
    "OUTPUT1:FUNC "@ + form
}

/// A session with one device.
///
/// The session remembers whether the last acquisition command that it issued
/// was a start. This is what the client intends, not what the device
/// confirmed: the protocol has no query for it.
#[derive(Debug)]
pub struct Redpitaya {
    started: bool,
}

impl Redpitaya {
    /// Whether acquisition counts as started.
    pub closed spec fn started(&self) -> bool {
        self.started
    }

    /// A fresh session: acquisition is not started.
    pub fn new() -> (session: Redpitaya)
        ensures
            !session.started(),
    {
        Redpitaya { started: false }
    }

    /// Starts the acquisition.
    pub fn aquire_start(&mut self) -> (command: String)
        ensures
            command@ == acquire_start_command(),
            final(self).started(),
    {
        self.started = true;
        String::from_str("ACQ:START")
    }

    /// Stops the acquisition.
    pub fn aquire_stop(&mut self) -> (command: String)
        ensures
            command@ == acquire_stop_command(),
            !final(self).started(),
    {
        self.started = false;
        String::from_str("ACQ:STOP")
    }

    pub fn acquire_is_started(&self) -> (started: bool)
        ensures
            started == self.started(),
    {
        self.started
    }

    /// Resets the acquisition. Whether it counts as started does not change.
    pub fn aquire_reset(&mut self) -> (command: String)
        ensures
            command@ == acquire_reset_command(),
            final(self).started() == old(self).started(),
    {
        String::from_str("ACQ:RST")
    }

    /// Asks for the acquired data, if acquisition is started. If it is not,
    /// the session refuses: there is no command to send and no reply to wait
    /// for.
    pub fn get_data(&mut self) -> (query: Option<String>)
        ensures
            final(self).started() == old(self).started(),
            match query {
                Some(command) => old(self).started() && command@ == acquire_data_query(),
                None => !old(self).started(),
            },
    {
        if self.started {
            Some(String::from_str("ACQ:SOUR1:DATA?"))
        } else {
            None
        }
    }

    /// Switches the generator on.
    pub fn generator_start(&mut self) -> (command: String)
        ensures
            command@ == generator_start_command(),
            final(self).started() == old(self).started(),
    {
        String::from_str("OUTPUT1:STATE ON")
    }

    /// Switches the generator off.
    pub fn generator_stop(&mut self) -> (command: String)
        ensures
            command@ == generator_stop_command(),
            final(self).started() == old(self).started(),
    {
        String::from_str("OUTPUT1:STATE OFF")
    }

    /// Selects the generator's waveform. `form` must be a name that the
    /// device knows: it is taken as it is, without escaping.
    pub fn generator_set_form(&mut self, form: &str) -> (command: String)
        ensures
            command@ == generator_form_command(form@),
            final(self).started() == old(self).started(),
    {
        let mut command = String::from_str("OUTPUT1:FUNC ");
        command.append(form);
        command
    }
}

} // verus!
