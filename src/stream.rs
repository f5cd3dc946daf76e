use vstd::prelude::*;

use crate::numbering::{advanced, render_line, rendered, Policy};

verus! {

broadcast use vstd::string::group_string_axioms;

/// What a run is asked to do: the sources in order, and how to number lines.
#[derive(Debug)]
pub struct Config {
    /// Source names; `-` stands for standard input.
    pub files: Vec<String>,
    /// Number every line.
    pub number_lines: bool,
    /// Number the lines that are not blank.
    pub number_nonblank_lines: bool,
}

impl Config {
    /// The numbering policy; numbering every line takes precedence.
    pub open spec fn spec_policy(&self) -> Policy {
        if self.number_lines {
            Policy::All
        } else if self.number_nonblank_lines {
            Policy::NonBlank
        } else {
            Policy::Plain
        }
    }

    pub fn policy(&self) -> (r: Policy)
        ensures
            r == self.spec_policy(),
    {
        if self.number_lines {
            Policy::All
        } else if self.number_nonblank_lines {
            Policy::NonBlank
        } else {
            Policy::Plain
        }
    }
}

/// Where the lines of one source come from.
#[derive(Debug)]
pub enum Source {
    StandardInput,
    FilePath(String),
}

/// The name reserved for standard input.
pub open spec fn is_stdin_name(id: Seq<char>) -> bool {
    id == seq!['-']
}

/// Whether `s` is what the source name `id` stands for.
pub open spec fn resolves_to(id: Seq<char>, s: Source) -> bool {
    if is_stdin_name(id) {
        s is StandardInput
    } else {
        s is FilePath && s->FilePath_0@ == id
    }
}

/// The source that the name `id` stands for.
pub fn resolve_source(id: &str) -> (r: Source)
    ensures
        resolves_to(id@, r),
{
    if id.unicode_len() == 1 && id.get_char(0) == '-' {
        assert(id@ =~= seq!['-']);
        Source::StandardInput
    } else {
        Source::FilePath(String::from_str(id))
    }
}

/// The line reported for a source that could not be opened.
pub open spec fn report(id: Seq<char>, reason: Seq<char>) -> Seq<char> {
    id + seq![':', ' '] + reason
}

/// A failure while reading a source that had been opened; it ends the run.
#[derive(Debug)]
pub struct RunError {
    /// The name of the source.
    pub source: String,
    /// What the reader said.
    pub reason: String,
}

impl RunError {
    /// `<source>: <reason>`.
    pub fn message(&self) -> (r: String)
        ensures
            r@ == report(self.source@, self.reason@),
    {
        let mut r = self.source.clone();
        proof {
            reveal_strlit(": ");
        }
        r.append(": ");
        r.append(self.reason.as_str());
        assert(r@ =~= report(self.source@, self.reason@));
        r
    }
}

/// Where a run stands.
#[derive(Debug)]
pub enum Phase {
    /// About to open the current source; past the last source the run is over.
    Opening,
    /// Reading lines of the current source.
    Streaming,
    /// Reading the current source failed for the given reason.
    Failed(String),
}

/// What happened when the last action was carried out.
#[derive(Debug)]
pub enum Event {
    /// The source was opened.
    Opened,
    /// The source could not be opened, for the given reason.
    OpenFailed(String),
    /// A line was read, without its terminator.
    Line(String),
    /// The source has no more lines.
    EndOfInput,
    /// Reading failed, for the given reason.
    ReadFailed(String),
}

/// What is to be done next.
#[derive(Debug)]
pub enum Action {
    /// Open this source.
    Open(Source),
    /// Read the next line of the open source.
    ReadLine,
    /// Close what is open; the run is over, with this result.
    Done(Result<(), RunError>),
}

/// What an event has the run write.
#[derive(Debug)]
pub enum Emit {
    Nothing,
    /// Text for standard output, line terminator included.
    Stdout(String),
    /// A line for standard error, without terminator.
    Stderr(String),
}

/// The decisions of a run: which source to open, when to read, what to write and
/// when to stop. Whoever drives it carries out each action and hands back what
/// happened.
#[derive(Debug)]
pub struct LineStreamer {
    pub sources: Vec<String>,
    pub policy: Policy,
    /// Index of the source being opened or read.
    pub current: usize,
    pub phase: Phase,
    /// The number that the next numbered line takes.
    pub counter: u64,
}

impl LineStreamer {
    pub open spec fn wf(&self) -> bool {
        &&& self.current <= self.sources.len()
        &&& !(self.phase is Opening) ==> self.current < self.sources.len()
        &&& self.counter >= 1
    }

    /// Whether `e` answers the action that the run stands at; any other event is ignored.
    pub open spec fn answers(&self, e: Event) -> bool {
        match self.phase {
            Phase::Opening => self.current < self.sources.len() && (e is Opened || e is OpenFailed),
            Phase::Streaming => e is Line || e is EndOfInput || e is ReadFailed,
            Phase::Failed(_) => false,
        }
    }

    /// A run over the sources of `config`, before anything is opened.
    pub fn new(config: &Config) -> (r: LineStreamer)
        ensures
            r.wf(),
            r.sources@ == config.files@,
            r.policy == config.spec_policy(),
            r.current == 0,
            r.phase is Opening,
            r.counter == 1,
    {
        LineStreamer {
            sources: config.files.clone(),
            policy: config.policy(),
            current: 0,
            phase: Phase::Opening,
            counter: 1,
        }
    }

    /// The action to carry out next.
    pub fn next_action(&self) -> (r: Action)
        requires
            self.wf(),
        ensures
            self.phase is Opening && self.current < self.sources.len() ==> r is Open
                && resolves_to(self.sources[self.current as int]@, r->Open_0),
            self.phase is Opening && self.current == self.sources.len() ==> r is Done
                && r->Done_0 is Ok,
            self.phase is Streaming ==> r is ReadLine,
            self.phase is Failed ==> r is Done && r->Done_0 is Err && r->Done_0->Err_0.source@
                == self.sources[self.current as int]@ && r->Done_0->Err_0.reason@
                == self.phase->Failed_0@,
    {
        match &self.phase {
            Phase::Opening => {
                if self.current < self.sources.len() {
                    Action::Open(resolve_source(self.sources[self.current].as_str()))
                } else {
                    Action::Done(Ok(()))
                }
            },
            Phase::Streaming => Action::ReadLine,
            Phase::Failed(reason) => Action::Done(
                Err(
                    RunError {
                        source: self.sources[self.current].clone(),
                        reason: reason.clone(),
                    },
                ),
            ),
        }
    }

    /// Takes in what happened and says what to write.
    pub fn handle(&mut self, event: Event) -> (r: Emit)
        requires
            old(self).wf(),
            event is Line ==> old(self).counter < u64::MAX,
        ensures
            final(self).wf(),
            final(self).sources == old(self).sources,
            final(self).policy == old(self).policy,
            !old(self).answers(event) ==> {
                &&& r is Nothing
                &&& final(self).current == old(self).current
                &&& final(self).phase == old(self).phase
                &&& final(self).counter == old(self).counter
            },
            old(self).answers(event) ==> match event {
                Event::Opened => {
                    &&& r is Nothing
                    &&& final(self).phase is Streaming
                    &&& final(self).current == old(self).current
                    &&& final(self).counter == old(self).counter
                },
                Event::OpenFailed(reason) => {
                    &&& r is Stderr
                    &&& r->Stderr_0@ == report(old(self).sources[old(self).current as int]@, reason@)
                    &&& final(self).phase is Opening
                    &&& final(self).current == old(self).current + 1
                    &&& final(self).counter == old(self).counter
                },
                Event::Line(line) => {
                    &&& r is Stdout
                    &&& r->Stdout_0@ == rendered(old(self).policy, old(self).counter as nat, line@)
                    &&& final(self).phase is Streaming
                    &&& final(self).current == old(self).current
                    &&& final(self).counter == advanced(old(self).policy, old(self).counter as nat, line@)
                },
                Event::EndOfInput => {
                    &&& r is Nothing
                    &&& final(self).phase is Opening
                    &&& final(self).current == old(self).current + 1
                    &&& final(self).counter == old(self).counter
                },
                Event::ReadFailed(reason) => {
                    &&& r is Nothing
                    &&& final(self).phase is Failed
                    &&& final(self).phase->Failed_0@ == reason@
                    &&& final(self).current == old(self).current
                    &&& final(self).counter == old(self).counter
                },
            },
    {
        match self.phase {
            Phase::Opening => {
                if self.current < self.sources.len() {
                    match event {
                        Event::Opened => {
                            self.phase = Phase::Streaming;
                            Emit::Nothing
                        },
                        Event::OpenFailed(reason) => {
                            let mut msg = self.sources[self.current].clone();
                            proof {
                                reveal_strlit(": ");
                            }
                            msg.append(": ");
                            msg.append(reason.as_str());
                            assert(msg@ =~= report(
                                self.sources[self.current as int]@,
                                reason@,
                            ));
                            self.current = self.current + 1;
                            Emit::Stderr(msg)
                        },
                        _ => Emit::Nothing,
                    }
                } else {
                    Emit::Nothing
                }
            },
            Phase::Streaming => {
                match event {
                    Event::Line(line) => {
                        let (out, next) = render_line(self.policy, self.counter, line.as_str());
                        self.counter = next;
                        Emit::Stdout(out)
                    },
                    Event::EndOfInput => {
                        self.current = self.current + 1;
                        self.phase = Phase::Opening;
                        Emit::Nothing
                    },
                    Event::ReadFailed(reason) => {
                        self.phase = Phase::Failed(reason);
                        Emit::Nothing
                    },
                    _ => Emit::Nothing,
                }
            },
            Phase::Failed(_) => Emit::Nothing,
        }
    }
}

} // verus!
