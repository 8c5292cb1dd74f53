//! The single consumer that takes every event in turn and decides what is
//! written to the server, to the chat and to the console.
use vstd::prelude::*;
use crate::event::{Event, EventModel, announcement, parsed};
use crate::state::{State, online_reply};
use crate::text::same_text;

verus! {

/// An event for the dispatcher, from one of its sources.
#[derive(Clone, Debug)]
pub enum Input {
    /// A chat message: its author's display name and its text.
    Chat { author: String, body: String },
    /// A line the server printed.
    ServerLine(String),
    /// A line typed on the local console.
    ConsoleLine(String),
    /// The shutdown signal was accepted, or the server process exited.
    Shutdown,
}

/// An input, over character sequences.
pub enum InputModel {
    Chat { author: Seq<char>, body: Seq<char> },
    ServerLine(Seq<char>),
    ConsoleLine(Seq<char>),
    Shutdown,
}

impl View for Input {
    type V = InputModel;

    open spec fn view(&self) -> InputModel {
        match self {
            Input::Chat { author, body } => InputModel::Chat { author: author@, body: body@ },
            Input::ServerLine(l) => InputModel::ServerLine(l@),
            Input::ConsoleLine(l) => InputModel::ConsoleLine(l@),
            Input::Shutdown => InputModel::Shutdown,
        }
    }
}

/// Something the dispatcher asks its surroundings to do.
#[derive(Clone, Debug, PartialEq, Eq)]
pub enum Output {
    /// Write this line, then a line end, to the server's input.
    ToServer(String),
    /// Post this text to the main chat channel.
    ToGeneral(String),
    /// Post this line to the channel that receives every server line.
    ToVerbose(String),
    /// Answer in the channel the message came from.
    Reply(String),
    /// Print this line on the local console.
    Echo(String),
    /// End the dispatch loop.
    Exit,
}

/// An output, over character sequences.
pub enum OutputModel {
    ToServer(Seq<char>),
    ToGeneral(Seq<char>),
    ToVerbose(Seq<char>),
    Reply(Seq<char>),
    Echo(Seq<char>),
    Exit,
}

impl View for Output {
    type V = OutputModel;

    open spec fn view(&self) -> OutputModel {
        match self {
            Output::ToServer(l) => OutputModel::ToServer(l@),
            Output::ToGeneral(l) => OutputModel::ToGeneral(l@),
            Output::ToVerbose(l) => OutputModel::ToVerbose(l@),
            Output::Reply(l) => OutputModel::Reply(l@),
            Output::Echo(l) => OutputModel::Echo(l@),
            Output::Exit => OutputModel::Exit,
        }
    }
}

/// The views of a list of outputs.
pub open spec fn outputs_view(v: Seq<Output>) -> Seq<OutputModel> {
    v.map_values(|o: Output| o@)
}

/// The text with white space taken off both ends, as `str::trim` gives it.
pub uninterp spec fn trim_of(s: Seq<char>) -> Seq<char>;

/// Relies on `str::trim`: the text without leading and trailing white space;
/// the result depends on the characters alone.
#[verifier::external_body]
fn trimmed(s: &str) -> (r: &str)
    ensures
        r@ == trim_of(s@),
{
    s.trim()
}

/// The display names under which the bridge's own messages arrive.
pub open spec fn is_bridge(author: Seq<char>) -> bool {
    author == "mc-sync"@ || author == "mc-boot"@
}

/// The console command that stops the server.
pub open spec fn stop_command() -> Seq<char> {
    "/stop"@
}

/// The server command that repeats a chat message in the game.
pub open spec fn say_line(author: Seq<char>, body: Seq<char>) -> Seq<char> {
    "/say ["@ + author + "]: "@ + body
}

/// What a chat message leads to, given its text with white space trimmed:
/// nothing for the bridge's own messages, the listing of who is online for
/// `!online`, else the message repeated in the game.
pub open spec fn chat_outputs(names: Seq<Seq<char>>, author: Seq<char>, body: Seq<char>, trimmed: Seq<char>) -> Seq<OutputModel> {
    if is_bridge(author) {
        Seq::empty()
    } else if trimmed == "!online"@ {
        seq![OutputModel::Reply(online_reply(names))]
    } else {
        seq![OutputModel::ToServer(say_line(author, body))]
    }
}

/// The input ends the dispatch loop: a shutdown, or `/stop` typed on the console.
pub open spec fn is_trigger(i: InputModel) -> bool {
    match i {
        InputModel::Shutdown => true,
        InputModel::ConsoleLine(l) => l == stop_command(),
        _ => false,
    }
}

/// What one input leads to, given the names online in order and whether
/// the loop has ended. A server line is echoed and relayed whole, and
/// announced where it is recognised.
pub open spec fn outputs_for(names: Seq<Seq<char>>, stopped: bool, i: InputModel) -> Seq<OutputModel> {
    if stopped {
        Seq::empty()
    } else {
        match i {
            InputModel::Chat { author, body } => chat_outputs(names, author, body, trim_of(body)),
            InputModel::ServerLine(l) => seq![OutputModel::Echo(l), OutputModel::ToVerbose(l)] + match parsed(l) {
                Some(e) => seq![OutputModel::ToGeneral(announcement(e))],
                None => Seq::empty(),
            },
            InputModel::ConsoleLine(l) => seq![OutputModel::ToServer(l)] + if l == stop_command() {
                seq![OutputModel::Exit]
            } else {
                Seq::empty()
            },
            InputModel::Shutdown => seq![OutputModel::ToServer(stop_command()), OutputModel::Exit],
        }
    }
}

/// The registry after one input: a recognised join adds the player, a
/// recognised quit takes them out; nothing else changes it, nor anything
/// once the loop has ended.
pub open spec fn registry_after(online: Set<Seq<char>>, stopped: bool, i: InputModel) -> Set<Seq<char>> {
    if stopped {
        online
    } else {
        match i {
            InputModel::ServerLine(l) => match parsed(l) {
                Some(EventModel::Join(n)) => online.insert(n),
                Some(EventModel::Quit(n)) => online.remove(n),
                _ => online,
            },
            _ => online,
        }
    }
}

/// The dispatcher's state: who is online, and whether the loop has ended.
pub struct Dispatcher {
    registry: State,
    stopped: bool,
}

impl Dispatcher {
    /// The registry of players online.
    pub closed spec fn spec_registry(&self) -> State {
        self.registry
    }

    /// The loop has ended.
    pub closed spec fn spec_stopped(&self) -> bool {
        self.stopped
    }

    /// The state is consistent.
    pub closed spec fn wf(&self) -> bool {
        self.registry.wf()
    }

    /// A dispatcher with nobody online, not yet ended.
    pub fn new() -> (r: Dispatcher)
        ensures
            r.wf(),
            !r.spec_stopped(),
            r.spec_registry()@ == Set::<Seq<char>>::empty(),
            r.spec_registry().names().len() == 0,
    {
        Dispatcher { registry: State::new(), stopped: false }
    }

    /// The registry of players online.
    pub fn registry(&self) -> (r: &State)
        ensures
            *r == self.spec_registry(),
    {
        &self.registry
    }

    /// Whether the loop has ended.
    pub fn is_stopped(&self) -> (r: bool)
        ensures
            r == self.spec_stopped(),
    {
        self.stopped
    }

    /// What a chat message leads to, given its text with white space
    /// trimmed. Changes nothing.
    pub fn chat(&self, author: &str, body: &str, trimmed: &str) -> (r: Vec<Output>)
        ensures
            outputs_view(r@) == chat_outputs(self.spec_registry().names(), author@, body@, trimmed@),
    {
        let mut r: Vec<Output> = Vec::new();
        if same_text(author, "mc-sync") || same_text(author, "mc-boot") {
            assert(outputs_view(r@) =~= Seq::<OutputModel>::empty());
            return r;
        }
        if same_text(trimmed, "!online") {
            r.push(Output::Reply(self.registry.listing()));
        } else {
            let mut say = "/say [".to_string();
            say.append(author);
            say.append("]: ");
            say.append(body);
            r.push(Output::ToServer(say));
        }
        assert(outputs_view(r@) =~= chat_outputs(self.spec_registry().names(), author@, body@, trimmed@));
        r
    }

    /// Handles one input to completion: returns what to do, in order, and
    /// updates the registry.
    pub fn handle(&mut self, input: Input) -> (r: Vec<Output>)
        requires
            old(self).wf(),
        ensures
            final(self).wf(),
            outputs_view(r@) == outputs_for(old(self).spec_registry().names(), old(self).spec_stopped(), input@),
            final(self).spec_registry()@ == registry_after(old(self).spec_registry()@, old(self).spec_stopped(), input@),
            final(self).spec_stopped() == (old(self).spec_stopped() || is_trigger(input@)),
    {
        if self.stopped {
            let r: Vec<Output> = Vec::new();
            assert(outputs_view(r@) =~= Seq::<OutputModel>::empty());
            return r;
        }
        match input {
            Input::Chat { author, body } => {
                let t = trimmed(body.as_str());
                self.chat(author.as_str(), body.as_str(), t)
            },
            Input::ServerLine(line) => {
                let mut r: Vec<Output> = Vec::new();
                r.push(Output::Echo(line.clone()));
                r.push(Output::ToVerbose(line.clone()));
                match Event::parse(line.as_str()) {
                    Some(e) => {
                        match &e {
                            Event::Join(n) => self.registry.insert_player(n.as_str()),
                            Event::Quit(n) => self.registry.remove_player(n.as_str()),
                            _ => {},
                        }
                        r.push(Output::ToGeneral(e.announce()));
                    },
                    None => {},
                }
                assert(outputs_view(r@) =~= outputs_for(old(self).spec_registry().names(), false, input@));
                r
            },
            Input::ConsoleLine(line) => {
                let mut r: Vec<Output> = Vec::new();
                let stop = same_text(line.as_str(), "/stop");
                r.push(Output::ToServer(line));
                if stop {
                    r.push(Output::Exit);
                    self.stopped = true;
                }
                assert(outputs_view(r@) =~= outputs_for(old(self).spec_registry().names(), false, input@));
                r
            },
            Input::Shutdown => {
                let mut r: Vec<Output> = Vec::new();
                r.push(Output::ToServer("/stop".to_string()));
                r.push(Output::Exit);
                self.stopped = true;
                assert(outputs_view(r@) =~= outputs_for(old(self).spec_registry().names(), false, input@));
                r
            },
        }
    }
}

/// How many of the outputs write the stop command to the server.
pub open spec fn stop_writes(out: Seq<OutputModel>) -> nat
    decreases out.len(),
{
    if out.len() == 0 {
        0
    } else {
        stop_writes(out.drop_last()) + if out.last() == OutputModel::ToServer(stop_command()) {
            1nat
        } else {
            0nat
        }
    }
}

/// Whether a dispatcher that started fresh has ended after these inputs.
pub open spec fn stopped_after(inputs: Seq<InputModel>) -> bool
    decreases inputs.len(),
{
    if inputs.len() == 0 {
        false
    } else {
        stopped_after(inputs.drop_last()) || is_trigger(inputs.last())
    }
}

/// How many stop commands a fresh dispatcher writes over these inputs, where
/// `names[k]` lists who is online when input `k` arrives.
pub open spec fn run_stop_writes(names: Seq<Seq<Seq<char>>>, inputs: Seq<InputModel>) -> nat
    decreases inputs.len(),
{
    if inputs.len() == 0 {
        0
    } else {
        let k = inputs.len() - 1;
        run_stop_writes(names, inputs.drop_last())
            + stop_writes(outputs_for(names[k], stopped_after(inputs.drop_last()), inputs.last()))
    }
}

/// A repeated chat line never reads as the stop command.
proof fn lemma_say_is_not_stop(author: Seq<char>, body: Seq<char>)
    ensures
        say_line(author, body) != stop_command(),
{
    reveal_strlit("/say [");
    reveal_strlit("/stop");
    assert(say_line(author, body)[2] == 'a');
    assert(stop_command()[2] == 't');
}

/// One input: once the loop has ended nothing more is done; a shutdown, or
/// `/stop` on the console, writes the stop command once and ends the loop;
/// any other input writes no stop command and does not end it.
pub proof fn lemma_stop_step(names: Seq<Seq<char>>, stopped: bool, i: InputModel)
    ensures
        stopped ==> outputs_for(names, stopped, i).len() == 0,
        stop_writes(outputs_for(names, stopped, i)) == if !stopped && is_trigger(i) { 1nat } else { 0nat },
        (exists|k: int| 0 <= k < outputs_for(names, stopped, i).len()
            && #[trigger] outputs_for(names, stopped, i)[k] == OutputModel::Exit)
            == (!stopped && is_trigger(i)),
        !stopped && is_trigger(i) ==> outputs_for(names, stopped, i).last() == OutputModel::Exit,
{
    let out = outputs_for(names, stopped, i);
    if !stopped {
        match i {
            InputModel::Chat { author, body } => {
                lemma_say_is_not_stop(author, body);
                assert(stop_writes(Seq::<OutputModel>::empty()) == 0);
                if out.len() > 0 {
                    assert(out.drop_last() =~= Seq::<OutputModel>::empty());
                }
            },
            InputModel::ServerLine(l) => {
                let head = seq![OutputModel::Echo(l), OutputModel::ToVerbose(l)];
                if out.len() == 3 {
                    assert(out.drop_last() =~= head);
                }
                assert(head.drop_last() =~= seq![OutputModel::Echo(l)]);
                assert(seq![OutputModel::Echo(l)].drop_last() =~= Seq::<OutputModel>::empty());
                assert(stop_writes(Seq::<OutputModel>::empty()) == 0);
                assert(stop_writes(seq![OutputModel::Echo(l)]) == 0);
                assert(stop_writes(head) == 0);
                assert(stop_writes(out) == 0);
                assert(out[0] != OutputModel::Exit && out[1] != OutputModel::Exit);
            },
            InputModel::ConsoleLine(l) => {
                let head = seq![OutputModel::ToServer(l)];
                assert(head.drop_last() =~= Seq::<OutputModel>::empty());
                assert(stop_writes(Seq::<OutputModel>::empty()) == 0);
                assert(stop_writes(head) == if l == stop_command() { 1nat } else { 0nat });
                if l == stop_command() {
                    assert(out.drop_last() =~= head);
                    assert(out[1] == OutputModel::Exit);
                } else {
                    assert(out =~= head);
                }
            },
            InputModel::Shutdown => {
                assert(out.drop_last() =~= seq![OutputModel::ToServer(stop_command())]);
                assert(out.drop_last().drop_last() =~= Seq::<OutputModel>::empty());
                assert(stop_writes(Seq::<OutputModel>::empty()) == 0);
                assert(stop_writes(out.drop_last()) == 1);
                assert(out[1] == OutputModel::Exit);
            },
        }
    }
}

/// Over any run of a fresh dispatcher, whoever is online at each step, the
/// stop command is written at most once: exactly once if a shutdown (or
/// `/stop` on the console) came, and never otherwise.
pub proof fn lemma_single_stop(names: Seq<Seq<Seq<char>>>, inputs: Seq<InputModel>)
    requires
        names.len() == inputs.len(),
    ensures
        run_stop_writes(names, inputs) == if stopped_after(inputs) { 1nat } else { 0nat },
        run_stop_writes(names, inputs) <= 1,
    decreases inputs.len(),
{
    if inputs.len() > 0 {
        let k = inputs.len() - 1;
        lemma_single_stop(names.drop_last(), inputs.drop_last());
        lemma_run_prefix_names(names, inputs.drop_last());
        lemma_stop_step(names[k], stopped_after(inputs.drop_last()), inputs.last());
    }
}

/// Only the first names matter to a run over the first inputs.
proof fn lemma_run_prefix_names(names: Seq<Seq<Seq<char>>>, inputs: Seq<InputModel>)
    requires
        inputs.len() < names.len(),
    ensures
        run_stop_writes(names, inputs) == run_stop_writes(names.drop_last(), inputs),
    decreases inputs.len(),
{
    if inputs.len() > 0 {
        lemma_run_prefix_names(names, inputs.drop_last());
    }
}

/// A chat message from anyone but the bridge, whose trimmed text is not
/// `!online`, leads to one write to the server, `/say [<author>]: <body>`,
/// and nothing else, while the loop runs.
pub proof fn lemma_chat_is_said(names: Seq<Seq<char>>, author: Seq<char>, body: Seq<char>)
    requires
        !is_bridge(author),
        trim_of(body) != "!online"@,
    ensures
        outputs_for(names, false, InputModel::Chat { author, body })
            == seq![OutputModel::ToServer(say_line(author, body))],
{
}

} // verus!
