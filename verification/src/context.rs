//! A session: one global scope that successive pieces of source text are
//! run in.
use vstd::prelude::*;
use vstd::string::*;
use crate::environment::{SpecEnv, SpecState, State, frames_kept, keeps, lemma_keeps_same};
use crate::eval::run_program;
use crate::host::{Answer, Host, Oracle, agrees, ans_parsed, extends, lemma_agrees_prefix, lemma_extends_trans};
use crate::parser::{malformed, p_file, parse_math_file};
use crate::semantics::{spec_run, with_pos};
use crate::text::concat2;

verus! {

broadcast use {
    crate::environment::lemma_keeps_trans,
    crate::environment::lemma_frames_same,
    crate::environment::lemma_frames_trans,
};

/// The number of evaluation steps a session allows.
pub const STEP_LIMIT: u64 = 0xffff_ffff_ffff_ffff;

/// Running the source text `code` in the global scope (scope 0): the host parses it, the
/// tree becomes statements, and the statements run.
pub open spec fn spec_sunwave(code: Seq<char>, o: Oracle, s: SpecState) -> (Result<(), Seq<char>>, SpecState) {
    let s1 = with_pos(s, s.pos + 1);
    match ans_parsed(o(s.pos), code) {
        Err(e) => (Err(e), s1),
        Ok(pairs) => match p_file(pairs) {
            None => (Err(malformed()), s1),
            Some(stmts) => {
                let (r, s2) = spec_run(stmts, 0, 0, Seq::empty(), o, s1);
                match r {
                    Ok(_) => (Ok(()), s2),
                    Err(m) => (Err(m), s2),
                }
            },
        },
    }
}

/// An interpreter session.
pub struct SunwaveContext {
    pub state: State,
}

impl SunwaveContext {
    /// A session with an empty global scope.
    pub fn new() -> (r: SunwaveContext)
        ensures
            r.state.model() == (SpecState {
                envs: seq![SpecEnv { vars: Seq::empty(), parent: None }],
                out: Seq::empty(),
                fuel: STEP_LIMIT as nat,
                pos: 0,
            }),
            r.state.answers() == Seq::<Answer>::empty(),
    {
        SunwaveContext { state: State::new(STEP_LIMIT) }
    }

    /// The text printed since the last call; the session's record of
    /// printed text is emptied.
    pub fn take_output(&mut self) -> (r: String)
        ensures
            r@ == old(self).state.model().out,
            final(self).state.model() == (SpecState { out: Seq::empty(), ..old(self).state.model() }),
            final(self).state.answers() == old(self).state.answers(),
    {
        let r = self.state.output.clone();
        self.state.output = String::new();
        r
    }

    /// Runs `code` in the session (see [`spec_sunwave`]).
    pub fn run_sunwave<H: Host>(&mut self, host: &H, code: &str) -> (r: Result<(), String>)
        ensures
            extends(final(self).state.answers(), old(self).state.answers()),
            keeps(old(self).state.model(), final(self).state.model()),
            frames_kept(old(self).state.model(), final(self).state.model(), 0),
            forall|o: Oracle|
                agrees(o, final(self).state.answers()) ==> spec_sunwave(code@, o, old(self).state.model()) == (
                    match r {
                        Ok(_) => Ok(()),
                        Err(m) => Err(m@),
                    },
                    final(self).state.model(),
                ),
    {
        let ghost s0 = self.state.model();
        let ghost l0 = self.state.answers();
        let parsed = self.state.log.parse_source(host, code);
        let ghost l1 = self.state.answers();
        let ghost s1 = self.state.model();
        proof {
            lemma_keeps_same(s0, s1);
        }
        let r = match parsed {
            Err(e) => Err(e),
            Ok(pairs) => match parse_math_file(&pairs) {
                Err(e) => Err(e),
                Ok(stmts) => match run_program(host, &mut self.state, &stmts, 0) {
                    Err(m) => Err(m),
                    Ok(_) => Ok(()),
                },
            },
        };
        proof {
            lemma_extends_trans(self.state.answers(), l1, l0);
            assert forall|o: Oracle| agrees(o, self.state.answers()) implies spec_sunwave(code@, o, s0) == (
                match r {
                    Ok(_) => Ok(()),
                    Err(m) => Err(m@),
                },
                self.state.model(),
            ) by {
                lemma_agrees_prefix(o, l1, self.state.answers());
            }
        }
        r
    }

    /// Runs `code` and reports how it went: `Ok.`, or `Error: ` and the
    /// error.
    pub fn execute<H: Host>(&mut self, host: &H, code: &str) -> (r: String)
        ensures
            extends(final(self).state.answers(), old(self).state.answers()),
            keeps(old(self).state.model(), final(self).state.model()),
            forall|o: Oracle|
                agrees(o, final(self).state.answers()) ==> final(self).state.model() == spec_sunwave(
                    code@,
                    o,
                    old(self).state.model(),
                ).1 && r@ == match spec_sunwave(code@, o, old(self).state.model()).0 {
                    Ok(_) => "Ok."@,
                    Err(m) => "Error: "@ + m,
                },
    {
        match self.run_sunwave(host, code) {
            Ok(_) => String::from_str("Ok."),
            Err(e) => concat2("Error: ", e.as_str()),
        }
    }
}

} // verus!
