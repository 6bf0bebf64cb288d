//! How a bot enters the world: it proves that it logged in, finds its character or
//! makes one, and plays it.
use crate::auth;
use vstd::prelude::*;
use wow_srp::vanilla_header::HeaderCrypto;

verus! {

/// How far a bot has come.
#[derive(Debug, Clone, Copy, PartialEq, Eq, Structural)]
pub enum Stage {
    /// It waits for the challenge of the server.
    Challenge,
    /// It proved itself and waits for the answer.
    Response,
    /// It asked for its characters.
    Characters,
    /// It had none and asked for one.
    Creation,
    /// It asked for its characters again.
    CharactersAgain,
    /// It plays.
    Playing,
    Failed,
}

/// What the server said.
#[derive(Debug, Clone, Copy, PartialEq, Eq, Structural)]
pub enum ServerSays {
    Challenge { seed: u32 },
    Response { ok: bool },
    /// The characters, of which only the first one counts.
    Characters { first: Option<u64> },
    Creation { success: bool },
    Other,
}

/// What a bot does next.
#[derive(Debug, Clone, Copy, PartialEq, Eq, Structural)]
pub enum NextStep {
    Prove { seed: u32 },
    AskForCharacters,
    CreateCharacter,
    Play { guid: u64 },
    GiveUp { why: EntryFailure },
}

/// Why a bot does not enter.
#[derive(Debug, Clone, Copy, PartialEq, Eq, Structural)]
pub enum EntryFailure {
    ExpectedChallenge,
    ExpectedResponse,
    Refused,
    ExpectedCharacters,
    ExpectedCreation,
    CreationFailed,
    NoCharacterAfterCreation,
    /// Nothing was to be said any more.
    NotWaiting,
}

/// What follows when the server says something.
pub open spec fn followed(at: Stage, said: ServerSays) -> (Stage, NextStep) {
    match at {
        Stage::Challenge => match said {
            ServerSays::Challenge { seed } => (Stage::Response, NextStep::Prove { seed }),
            _ => (Stage::Failed, NextStep::GiveUp { why: EntryFailure::ExpectedChallenge }),
        },
        Stage::Response => match said {
            ServerSays::Response { ok } => if ok {
                (Stage::Characters, NextStep::AskForCharacters)
            } else {
                (Stage::Failed, NextStep::GiveUp { why: EntryFailure::Refused })
            },
            _ => (Stage::Failed, NextStep::GiveUp { why: EntryFailure::ExpectedResponse }),
        },
        Stage::Characters => match said {
            ServerSays::Characters { first } => match first {
                Some(guid) => (Stage::Playing, NextStep::Play { guid }),
                None => (Stage::Creation, NextStep::CreateCharacter),
            },
            _ => (Stage::Failed, NextStep::GiveUp { why: EntryFailure::ExpectedCharacters }),
        },
        Stage::Creation => match said {
            ServerSays::Creation { success } => if success {
                (Stage::CharactersAgain, NextStep::AskForCharacters)
            } else {
                (Stage::Failed, NextStep::GiveUp { why: EntryFailure::CreationFailed })
            },
            _ => (Stage::Failed, NextStep::GiveUp { why: EntryFailure::ExpectedCreation }),
        },
        Stage::CharactersAgain => match said {
            ServerSays::Characters { first } => match first {
                Some(guid) => (Stage::Playing, NextStep::Play { guid }),
                None => (Stage::Failed, NextStep::GiveUp { why: EntryFailure::NoCharacterAfterCreation }),
            },
            _ => (Stage::Failed, NextStep::GiveUp { why: EntryFailure::ExpectedCharacters }),
        },
        Stage::Playing => (Stage::Playing, NextStep::GiveUp { why: EntryFailure::NotWaiting }),
        Stage::Failed => (Stage::Failed, NextStep::GiveUp { why: EntryFailure::NotWaiting }),
    }
}

/// What a bot does about what the server said.
pub fn advance(at: &mut Stage, said: ServerSays) -> (r: NextStep)
    ensures
        (*final(at), r) == followed(*old(at), said),
{
    let (next, step): (Stage, NextStep) = match *at {
        Stage::Challenge => match said {
            ServerSays::Challenge { seed } => (Stage::Response, NextStep::Prove { seed }),
            _ => (Stage::Failed, NextStep::GiveUp { why: EntryFailure::ExpectedChallenge }),
        },
        Stage::Response => match said {
            ServerSays::Response { ok } => if ok {
                (Stage::Characters, NextStep::AskForCharacters)
            } else {
                (Stage::Failed, NextStep::GiveUp { why: EntryFailure::Refused })
            },
            _ => (Stage::Failed, NextStep::GiveUp { why: EntryFailure::ExpectedResponse }),
        },
        Stage::Characters => match said {
            ServerSays::Characters { first } => match first {
                Some(guid) => (Stage::Playing, NextStep::Play { guid }),
                None => (Stage::Creation, NextStep::CreateCharacter),
            },
            _ => (Stage::Failed, NextStep::GiveUp { why: EntryFailure::ExpectedCharacters }),
        },
        Stage::Creation => match said {
            ServerSays::Creation { success } => if success {
                (Stage::CharactersAgain, NextStep::AskForCharacters)
            } else {
                (Stage::Failed, NextStep::GiveUp { why: EntryFailure::CreationFailed })
            },
            _ => (Stage::Failed, NextStep::GiveUp { why: EntryFailure::ExpectedCreation }),
        },
        Stage::CharactersAgain => match said {
            ServerSays::Characters { first } => match first {
                Some(guid) => (Stage::Playing, NextStep::Play { guid }),
                None => (Stage::Failed, NextStep::GiveUp { why: EntryFailure::NoCharacterAfterCreation }),
            },
            _ => (Stage::Failed, NextStep::GiveUp { why: EntryFailure::ExpectedCharacters }),
        },
        Stage::Playing => (Stage::Playing, NextStep::GiveUp { why: EntryFailure::NotWaiting }),
        Stage::Failed => (Stage::Failed, NextStep::GiveUp { why: EntryFailure::NotWaiting }),
    };
    *at = next;
    step
}

/// The stage after all that the server said.
pub open spec fn stage_after(said: Seq<ServerSays>) -> Stage
    decreases said.len(),
{
    if said.len() == 0 {
        Stage::Challenge
    } else {
        followed(stage_after(said.drop_last()), said.last()).0
    }
}

/// Whoever plays was challenged and accepted, and plays a character that the server
/// named.
pub proof fn who_plays_was_accepted(said: Seq<ServerSays>)
    requires
        stage_after(said) == Stage::Playing,
    ensures
        said.len() >= 3,
        said[0] is Challenge,
        said[1] == (ServerSays::Response { ok: true }),
        exists|i: int| 2 <= i < said.len() && (#[trigger] said[i]) is Characters && said[i]->first is Some,
    decreases said.len(),
{
    lemma_stages(said);
}

/// What was said before each stage.
pub open spec fn led_to(at: Stage, said: Seq<ServerSays>) -> bool {
    match at {
        Stage::Challenge => said.len() == 0,
        Stage::Response => said.len() == 1 && said[0] is Challenge,
        Stage::Failed => true,
        _ => {
            &&& said.len() >= 2
            &&& said[0] is Challenge
            &&& said[1] == (ServerSays::Response { ok: true })
            &&& at == Stage::Playing ==> exists|i: int|
                2 <= i < said.len() && (#[trigger] said[i]) is Characters && said[i]->first is Some
        },
    }
}

proof fn lemma_stages(said: Seq<ServerSays>)
    ensures
        led_to(stage_after(said), said),
        stage_after(said) == Stage::Playing ==> said.len() >= 3,
    decreases said.len(),
{
    if said.len() > 0 {
        let front = said.drop_last();
        lemma_stages(front);
        let n = said.len() - 1;
        assert(said.last() == said[n]);
        if stage_after(said) == Stage::Playing {
            if stage_after(front) == Stage::Playing {
                let i = choose|i: int| 2 <= i < front.len() && (#[trigger] front[i]) is Characters && front[i]->first is Some;
                assert(said[i] == front[i]);
            } else {
                assert(said[n] is Characters && said[n]->first is Some);
            }
        }
    }
}

/// What a bot proves itself with.
pub struct SessionProof {
    pub client_seed: u32,
    pub client_proof: [u8; 20],
    pub crypto: HeaderCrypto,
}

/// Answer the challenge of the server. A name that cannot be logged in with has no
/// answer.
pub fn prove(username: &str, session_key: [u8; 40], server_seed: u32) -> (r: Option<SessionProof>)
    ensures
        r is Some <==> auth::can_log_in(username@),
        r is Some ==> r->0.client_proof@ == auth::session_proof(
            auth::normal_form(username@),
            session_key@,
            server_seed,
            r->0.client_seed,
        ),
        r is Some ==> r->0.crypto == auth::ciphers(session_key@),
{
    let name = match auth::normalized(username) {
        Some(n) => n,
        None => {
            return None;
        },
    };
    let (seed, client_seed) = auth::challenge_client();
    let (client_proof, crypto) = auth::client_crypto(seed, &name, session_key, server_seed);
    Some(SessionProof { client_seed, client_proof, crypto })
}

/// A bot that is challenged proves itself; accepted, it asks for its characters and plays the
/// first, or makes one and asks again. Whatever else it is told ends it.
pub proof fn a_bot_enters_step_by_step(at: &mut Stage, said: ServerSays, r: NextStep, n: u32, guid: u64)
    requires
        call_ensures(advance, (at, said), r),
    ensures
        *old(at) is Challenge && said == (ServerSays::Challenge { seed: n }) ==> *final(at) is Response && r
            == (NextStep::Prove { seed: n }),
        *old(at) is Challenge && !(said is Challenge) ==> *final(at) is Failed && r == (NextStep::GiveUp {
            why: EntryFailure::ExpectedChallenge,
        }),
        *old(at) is Response && said == (ServerSays::Response { ok: true }) ==> *final(at) is Characters
            && r is AskForCharacters,
        *old(at) is Response && said == (ServerSays::Response { ok: false }) ==> *final(at) is Failed && r
            == (NextStep::GiveUp { why: EntryFailure::Refused }),
        *old(at) is Response && !(said is Response) ==> *final(at) is Failed && r == (NextStep::GiveUp {
            why: EntryFailure::ExpectedResponse,
        }),
        (*old(at) is Characters || *old(at) is CharactersAgain) && said == (ServerSays::Characters {
            first: Some(guid),
        }) ==> *final(at) is Playing && r == (NextStep::Play { guid }),
        *old(at) is Characters && said == (ServerSays::Characters { first: None }) ==> *final(at) is Creation
            && r is CreateCharacter,
        *old(at) is CharactersAgain && said == (ServerSays::Characters { first: None }) ==> *final(at) is Failed && r
            == (NextStep::GiveUp { why: EntryFailure::NoCharacterAfterCreation }),
        (*old(at) is Characters || *old(at) is CharactersAgain) && !(said is Characters) ==> *final(at) is Failed && r
            == (NextStep::GiveUp { why: EntryFailure::ExpectedCharacters }),
        *old(at) is Creation && said == (ServerSays::Creation { success: true }) ==> *final(at) is CharactersAgain
            && r is AskForCharacters,
        *old(at) is Creation && said == (ServerSays::Creation { success: false }) ==> *final(at) is Failed && r
            == (NextStep::GiveUp { why: EntryFailure::CreationFailed }),
        *old(at) is Creation && !(said is Creation) ==> *final(at) is Failed && r == (NextStep::GiveUp {
            why: EntryFailure::ExpectedCreation,
        }),
        *old(at) is Playing || *old(at) is Failed ==> *final(at) == *old(at) && r == (NextStep::GiveUp {
            why: EntryFailure::NotWaiting,
        }),
{
}

} // verus!
