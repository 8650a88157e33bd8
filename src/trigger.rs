//! Trigger state: the sweep mode that gates the acquisition modes.

use vstd::prelude::*;
use crate::ascii::text_eq;

verus! {

/// Why a trigger reply was refused.
#[derive(Debug)]
pub enum Error {
    /// The reply named no sweep mode; it carries the reply.
    InvalidEnumValue(String),
}

/// The trigger sweep mode.
#[derive(Debug, Clone, Copy, PartialEq, Eq, Hash, Structural)]
pub enum SWEep {
    AUTO,
    NORM,
    SING,
}

impl SWEep {
    /// The token that names this value on the wire.
    pub open spec fn spec_name(self) -> Seq<char> {
        match self {
            SWEep::AUTO => "AUTO"@,
            SWEep::NORM => "NORM"@,
            SWEep::SING => "SING"@,
        }
    }

    /// The token that names this value on the wire.
    pub fn name(&self) -> (r: &'static str)
        ensures
            r@ == self.spec_name(),
    {
        match self {
            SWEep::AUTO => "AUTO",
            SWEep::NORM => "NORM",
            SWEep::SING => "SING",
        }
    }

    /// Length and first character of each token, folded into one number.
    spec fn token_key(self) -> int {
        match self {
            SWEep::AUTO => 577,
            SWEep::NORM => 590,
            SWEep::SING => 595,
        }
    }

    proof fn lemma_token_key(self)
        ensures
            self.spec_name().len() > 0,
            ({
                let s = self.spec_name();
                s.len() * 128 + s[0] as int == self.token_key()
            }),
    {
        match self {
            SWEep::AUTO => reveal_strlit("AUTO"),
            SWEep::NORM => reveal_strlit("NORM"),
            SWEep::SING => reveal_strlit("SING"),
        }
    }

    /// No two sweep modes share a token.
    pub proof fn lemma_names_distinct()
        ensures
            forall|a: SWEep, b: SWEep| #[trigger] a.spec_name() == #[trigger] b.spec_name() ==> a == b,
    {
        assert forall|a: SWEep, b: SWEep| #[trigger] a.spec_name() == #[trigger] b.spec_name() implies a == b by {
            a.lemma_token_key();
            b.lemma_token_key();
        }
    }

    /// Reads a value from the token the device echoed.
    pub fn parse(reply: &str) -> (r: Result<SWEep, Error>)
        ensures
            r matches Ok(v) ==> reply@ == v.spec_name(),
            r is Err <==> forall|v: SWEep| reply@ != #[trigger] v.spec_name(),
            r matches Err(e) ==> e matches Error::InvalidEnumValue(t) && t@ == reply@,
    {
        if text_eq(reply, "AUTO") {
            assert(reply@ == SWEep::AUTO.spec_name());
            return Ok(SWEep::AUTO);
        }
        if text_eq(reply, "NORM") {
            assert(reply@ == SWEep::NORM.spec_name());
            return Ok(SWEep::NORM);
        }
        if text_eq(reply, "SING") {
            assert(reply@ == SWEep::SING.spec_name());
            return Ok(SWEep::SING);
        }
        Err(Error::InvalidEnumValue(reply.to_owned()))
    }
}

/// The trigger state of one session, read once from the device and then
/// only consulted.
#[derive(Debug, Clone, Copy)]
pub struct TRIGgerCommand {
    pub sweep: SWEep,
}

impl TRIGgerCommand {
    /// Builds the trigger state from the reply to the sweep query.
    pub fn new(reply: &str) -> (r: Result<TRIGgerCommand, Error>)
        ensures
            r matches Ok(t) ==> reply@ == t.sweep.spec_name(),
            r is Err <==> forall|v: SWEep| reply@ != #[trigger] v.spec_name(),
    {
        let sweep = SWEep::parse(reply)?;
        Ok(TRIGgerCommand { sweep })
    }
}

} // verus!
