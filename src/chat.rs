use vstd::prelude::*;

use vstd::string::StringExecFns;

use crate::session::Message;

verus! {

/// The state behind the chat window: the conversation so far and what the
/// operator has typed.
#[derive(Debug)]
pub struct LinbpqApp {
    received_messages: Vec<Message>,
    command_input: String,
    callsign: String,
    message_input: String,
}

/// A line that reports a problem: from "System" to "N/A".
pub open spec fn is_system_line(m: Message, text: Seq<char>) -> bool {
    &&& m.source@ == "System"@
    &&& m.destination@ == "N/A"@
    &&& m.content@ == text
}

impl Default for LinbpqApp {
    fn default() -> (r: LinbpqApp)
        ensures
            r.messages().len() == 0,
            r.spec_callsign().len() == 0,
            r.spec_message_input().len() == 0,
    {
        LinbpqApp {
            received_messages: Vec::new(),
            command_input: String::new(),
            callsign: String::new(),
            message_input: String::new(),
        }
    }
}

fn system_line(text: String) -> (r: Message)
    ensures
        is_system_line(r, text@),
{
    Message {
        source: String::from_str("System"),
        destination: String::from_str("N/A"),
        content: text,
    }
}

impl LinbpqApp {
    pub closed spec fn messages(&self) -> Seq<Message> {
        self.received_messages@
    }

    pub closed spec fn spec_callsign(&self) -> Seq<char> {
        self.callsign@
    }

    pub closed spec fn spec_message_input(&self) -> Seq<char> {
        self.message_input@
    }

    /// The conversation so far, oldest first.
    pub fn received_messages(&self) -> (r: &Vec<Message>)
        ensures
            r@ == self.messages(),
    {
        &self.received_messages
    }

    pub fn callsign(&self) -> (r: &String)
        ensures
            r@ == self.spec_callsign(),
    {
        &self.callsign
    }

    pub fn set_callsign(&mut self, callsign: String)
        ensures
            final(self).spec_callsign() == callsign@,
            final(self).messages() == old(self).messages(),
            final(self).spec_message_input() == old(self).spec_message_input(),
    {
        self.callsign = callsign;
    }

    pub fn message_input(&self) -> (r: &String)
        ensures
            r@ == self.spec_message_input(),
    {
        &self.message_input
    }

    pub fn set_message_input(&mut self, text: String)
        ensures
            final(self).spec_message_input() == text@,
            final(self).messages() == old(self).messages(),
            final(self).spec_callsign() == old(self).spec_callsign(),
    {
        self.message_input = text;
    }

    /// Adds a received message to the end of the conversation.
    pub fn push_message(&mut self, m: Message)
        ensures
            final(self).messages() == old(self).messages().push(m),
            final(self).spec_callsign() == old(self).spec_callsign(),
            final(self).spec_message_input() == old(self).spec_message_input(),
    {
        self.received_messages.push(m);
    }

    /// Empties the conversation.
    pub fn clear_messages(&mut self)
        ensures
            final(self).messages().len() == 0,
            final(self).spec_callsign() == old(self).spec_callsign(),
            final(self).spec_message_input() == old(self).spec_message_input(),
    {
        self.received_messages.clear();
    }

    /// Reports a failure to start listening as a system line.
    pub fn record_listen_error(&mut self, error: String)
        ensures
            final(self).messages().len() == old(self).messages().len() + 1,
            final(self).messages().subrange(0, old(self).messages().len() as int)
                == old(self).messages(),
            is_system_line(
                final(self).messages().last(),
                "Error starting listener: "@ + error@,
            ),
            final(self).spec_callsign() == old(self).spec_callsign(),
            final(self).spec_message_input() == old(self).spec_message_input(),
    {
        let mut text = String::from_str("Error starting listener: ");
        text.append(error.as_str());
        let ghost before = self.received_messages@;
        self.received_messages.push(system_line(text));
        assert(self.received_messages@.subrange(0, before.len() as int) =~= before);
    }

    /// After an attempt to send the typed text to `destination`: on success
    /// the text joins the conversation as sent by this station's callsign,
    /// on failure a system line gives the error. Either way the input is
    /// cleared.
    pub fn record_send(&mut self, destination: String, outcome: Result<(), String>)
        ensures
            final(self).messages().len() == old(self).messages().len() + 1,
            final(self).messages().subrange(0, old(self).messages().len() as int)
                == old(self).messages(),
            outcome is Ok ==> {
                let m = final(self).messages().last();
                &&& m.source@ == old(self).spec_callsign()
                &&& m.destination@ == destination@
                &&& m.content@ == old(self).spec_message_input()
            },
            outcome is Err ==> is_system_line(
                final(self).messages().last(),
                "Error: "@ + outcome->Err_0@,
            ),
            final(self).spec_message_input().len() == 0,
            final(self).spec_callsign() == old(self).spec_callsign(),
    {
        let ghost before = self.received_messages@;
        let m = match outcome {
            Ok(()) => Message {
                source: self.callsign.clone(),
                destination,
                content: self.message_input.clone(),
            },
            Err(e) => {
                let mut text = String::from_str("Error: ");
                text.append(e.as_str());
                system_line(text)
            },
        };
        self.received_messages.push(m);
        self.message_input = String::new();
        assert(self.received_messages@.subrange(0, before.len() as int) =~= before);
    }
}

} // verus!
