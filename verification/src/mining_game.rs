//! The rules under which the funds of a mining game can be spent: the
//! quorums that may decide, how a quorum degrades over time, and who is
//! paid what when the host is caught cheating or the game is abandoned.
//!
//! The rules are stated on plain values. Turning them into spending
//! conditions of a transaction is the business of the contract compiler.

use vstd::prelude::*;
use vstd::string::*;
use crate::bytes::same_bytes;
use crate::crypto::{public_key_of, secret_to_xonly};
use crate::game::MoveEnvelope;

verus! {

/// A quorum degrades every so many blocks: once an hour.
pub const DEGRADE_EVERY_N_BLOCKS: u16 = 6;

/// What a game is about: the host, the players with their stakes in
/// satoshis, and the time after which the game is over.
#[derive(Debug, PartialEq, Eq)]
pub struct GameKernel {
    pub game_host: [u8; 32],
    pub players: Vec<([u8; 32], u64)>,
    pub timeout: u64,
}

/// A game that has started.
#[derive(Debug, PartialEq, Eq)]
pub struct GameStarted {
    pub kernel: GameKernel,
}

/// The secret key of the host, published by whoever caught the host
/// signing two things with one nonce.
#[derive(Clone, Copy, Debug, PartialEq, Eq)]
pub struct HostKey(pub [u8; 32]);

/// Evidence that the host withheld a move.
#[derive(Clone, Copy, Debug, PartialEq, Eq, Structural)]
pub struct CensorshipProof {}

/// The moves of a game, each with the key of the player who made it.
#[derive(Debug, PartialEq, Eq)]
pub struct ExtractedMoveEnvelopes(pub Vec<(MoveEnvelope, [u8; 32])>);

/// How a game can end.
#[derive(Debug, PartialEq, Eq)]
pub enum GameEnd {
    HostCheatEquivocate(HostKey),
    HostCheatCensor(CensorshipProof),
    PlayersWin(ExtractedMoveEnvelopes),
    PlayersLose(ExtractedMoveEnvelopes),
    Degrade,
}

/// Why no transaction could be made.
#[derive(Debug, PartialEq, Eq)]
pub enum CompilationError {
    /// The argument is for another way to end the game.
    ContinuationCoercion(String),
    /// The rule refuses this ending.
    Custom(String),
    /// The rule is not available.
    TerminateWith(String),
}

/// One output of a transaction: so many satoshis to this key.
#[derive(Clone, Copy, Debug, PartialEq, Eq)]
pub struct Payout {
    pub key: [u8; 32],
    pub amount: u64,
}

/// One way to reach a quorum: so many of the players sign, after the funds
/// have rested for so many blocks, with or without the host.
#[derive(Clone, Copy, Debug, PartialEq, Eq, Structural)]
pub struct QuorumStep {
    pub parties: usize,
    pub wait_blocks: u16,
    pub host_signs: bool,
}

/// The step at position `i` of the schedule for `total` players. Steps
/// come in pairs: with the host first, then without. From pair to pair one
/// player less is needed, and each step waits [`DEGRADE_EVERY_N_BLOCKS`]
/// blocks, that is six, longer than the one before; the very first waits
/// one block, so that only confirmed funds can be spent.
pub open spec fn quorum_step(total: int, i: int) -> QuorumStep {
    let pair = i / 2;
    if i % 2 == 0 {
        QuorumStep {
            parties: (total - pair) as usize,
            wait_blocks: if pair == 0 {
                1
            } else {
                (12 * pair) as u16
            },
            host_signs: true,
        }
    } else {
        QuorumStep {
            parties: (total - pair) as usize,
            wait_blocks: (12 * pair + 6) as u16,
            host_signs: false,
        }
    }
}

/// The payouts that give every player its stake back, in the order of the
/// players.
pub open spec fn refunds(players: Seq<([u8; 32], u64)>) -> Seq<Payout> {
    Seq::new(players.len(), |i: int| Payout { key: players[i].0, amount: players[i].1 })
}

/// The largest number of players for which the schedule can be written.
pub const MAX_PLAYERS: usize = 5461;

impl GameStarted {
    /// The quorum that can end the game in any way: all players. Returns
    /// how many signatures are needed and whose.
    pub fn all_players_signed(&self) -> (r: (usize, Vec<[u8; 32]>))
        ensures
            r.0 == self.kernel.players@.len(),
            r.1@.len() == self.kernel.players@.len(),
            forall|i: int| 0 <= i < r.1@.len() ==> r.1@[i] == self.kernel.players@[i].0,
    {
        let n = self.kernel.players.len();
        let mut keys: Vec<[u8; 32]> = Vec::new();
        let mut i: usize = 0;
        while i < n
            invariant
                0 <= i <= n,
                n == self.kernel.players@.len(),
                keys@.len() == i,
                forall|j: int| 0 <= j < i ==> keys@[j] == self.kernel.players@[j].0,
            decreases n - i,
        {
            keys.push(self.kernel.players[i].0);
            i += 1;
        }
        (n, keys)
    }

    /// The schedule by which the quorum degrades: two steps for every
    /// number of players from all down to one.
    pub fn degraded_quorum(&self) -> (steps: Vec<QuorumStep>)
        requires
            0 < self.kernel.players@.len() <= MAX_PLAYERS,
        ensures
            steps@.len() == 2 * self.kernel.players@.len(),
            forall|i: int|
                0 <= i < steps@.len() ==> steps@[i] == quorum_step(
                    self.kernel.players@.len() as int,
                    i,
                ),
    {
        let total = self.kernel.players.len();
        let mut steps: Vec<QuorumStep> = Vec::new();
        let mut next_trigger_at: u16 = 0;
        let mut done: usize = 0;
        while done < total
            invariant
                0 <= done <= total,
                0 < total <= MAX_PLAYERS,
                total == self.kernel.players@.len(),
                next_trigger_at == 12 * done,
                DEGRADE_EVERY_N_BLOCKS == 6,
                steps@.len() == 2 * done,
                forall|i: int| 0 <= i < steps@.len() ==> steps@[i] == quorum_step(total as int, i),
            decreases total - done,
        {
            let parties = total - done;
            let wait: u16 = if next_trigger_at < 1 {
                1
            } else {
                next_trigger_at
            };
            steps.push(QuorumStep { parties, wait_blocks: wait, host_signs: true });
            next_trigger_at = next_trigger_at + DEGRADE_EVERY_N_BLOCKS;
            steps.push(QuorumStep { parties, wait_blocks: next_trigger_at, host_signs: false });
            next_trigger_at = next_trigger_at + DEGRADE_EVERY_N_BLOCKS;
            done += 1;
        }
        steps
    }

    /// The stakes of all players, each paid back to its player.
    pub fn degrade(&self, unit: Option<()>) -> (r: Option<Vec<Payout>>)
        ensures
            match r {
                Some(list) => unit is Some && list@ == refunds(self.kernel.players@),
                None => unit is None,
            },
    {
        match unit {
            None => None,
            Some(_) => Some(self.refund_all()),
        }
    }

    fn refund_all(&self) -> (list: Vec<Payout>)
        ensures
            list@ == refunds(self.kernel.players@),
    {
        let n = self.kernel.players.len();
        let mut list: Vec<Payout> = Vec::new();
        let mut i: usize = 0;
        while i < n
            invariant
                0 <= i <= n,
                n == self.kernel.players@.len(),
                list@.len() == i,
                forall|j: int| 0 <= j < i ==> list@[j] == refunds(self.kernel.players@)[j],
            decreases n - i,
        {
            let player = self.kernel.players[i];
            list.push(Payout { key: player.0, amount: player.1 });
            i += 1;
        }
        list
    }

    /// The host signed two things with one nonce and its secret key came
    /// out: given the key, every player gets its stake back. A key that
    /// is not the host's is refused. Without a key there is nothing to do.
    pub fn host_cheat_equivocate(&self, proof_key: Option<HostKey>) -> (r: Result<
        Option<Vec<Payout>>,
        CompilationError,
    >)
        ensures
            match proof_key {
                None => r matches Ok(None),
                Some(k) => {
                    if public_key_of(k.0@) == Some(self.kernel.game_host@) {
                        r matches Ok(Some(list)) && list@ == refunds(self.kernel.players@)
                    } else {
                        r matches Err(CompilationError::Custom(why)) && why@
                            == "The Secret Key Provided does not match the Public Key of the Game Host"@
                    }
                },
            },
    {
        match proof_key {
            None => Ok(None),
            Some(k) => {
                let matches = match secret_to_xonly(&k.0) {
                    Some((public, _)) => same_bytes(&public, &self.kernel.game_host),
                    None => false,
                };
                if matches {
                    Ok(Some(self.refund_all()))
                } else {
                    Err(
                        CompilationError::Custom(
                            String::from_str(
                                "The Secret Key Provided does not match the Public Key of the Game Host",
                            ),
                        ),
                    )
                }
            },
        }
    }

    /// The host withheld a move. Evidence of that cannot be judged yet, so
    /// any evidence is refused. Without evidence there is nothing to do.
    pub fn host_cheat_censor(&self, evidence: Option<CensorshipProof>) -> (r: Result<
        Option<Vec<Payout>>,
        CompilationError,
    >)
        ensures
            match evidence {
                None => r matches Ok(None),
                Some(_) => r matches Err(CompilationError::TerminateWith(why)) && why@
                    == "Not Yet Supported"@,
            },
    {
        match evidence {
            Some(_) => Err(CompilationError::TerminateWith(String::from_str("Not Yet Supported"))),
            None => Ok(None),
        }
    }
}

/// The host's key out of the way the game ends, if it ends that way.
pub fn coerce_host_key(k: Option<GameEnd>) -> (r: Result<Option<HostKey>, CompilationError>)
    ensures
        match k {
            Some(GameEnd::HostCheatEquivocate(x)) => r == Ok::<Option<HostKey>, CompilationError>(
                Some(x),
            ),
            Some(_) => r matches Err(CompilationError::ContinuationCoercion(why)) && why@
                == "Failed to coerce GameEnd into HostKey"@,
            None => r == Ok::<Option<HostKey>, CompilationError>(None),
        },
{
    match k {
        Some(GameEnd::HostCheatEquivocate(x)) => Ok(Some(x)),
        Some(_) => Err(
            CompilationError::ContinuationCoercion(
                String::from_str("Failed to coerce GameEnd into HostKey"),
            ),
        ),
        None => Ok(None),
    }
}

/// The evidence of censorship out of the way the game ends, if it ends
/// that way.
pub fn coerce_censorship_proof(k: Option<GameEnd>) -> (r: Result<
    Option<CensorshipProof>,
    CompilationError,
>)
    ensures
        match k {
            Some(GameEnd::HostCheatCensor(x)) => r == Ok::<
                Option<CensorshipProof>,
                CompilationError,
            >(Some(x)),
            Some(_) => r matches Err(CompilationError::ContinuationCoercion(why)) && why@
                == "Failed to coerce GameEnd into CensorshipProof"@,
            None => r == Ok::<Option<CensorshipProof>, CompilationError>(None),
        },
{
    match k {
        Some(GameEnd::HostCheatCensor(x)) => Ok(Some(x)),
        Some(_) => Err(
            CompilationError::ContinuationCoercion(
                String::from_str("Failed to coerce GameEnd into CensorshipProof"),
            ),
        ),
        None => Ok(None),
    }
}

/// The moves out of the way the game ends, if the players won.
pub fn coerce_players_win(k: Option<GameEnd>) -> (r: Result<
    Option<ExtractedMoveEnvelopes>,
    CompilationError,
>)
    ensures
        match k {
            Some(GameEnd::PlayersWin(ms)) => r == Ok::<
                Option<ExtractedMoveEnvelopes>,
                CompilationError,
            >(Some(ms)),
            Some(_) => r matches Err(CompilationError::ContinuationCoercion(why)) && why@
                == "Failed to coerce GameEnd into PlayersWin"@,
            None => r == Ok::<Option<ExtractedMoveEnvelopes>, CompilationError>(None),
        },
{
    match k {
        Some(GameEnd::PlayersWin(ms)) => Ok(Some(ms)),
        Some(_) => Err(
            CompilationError::ContinuationCoercion(
                String::from_str("Failed to coerce GameEnd into PlayersWin"),
            ),
        ),
        None => Ok(None),
    }
}

/// The moves out of the way the game ends, if the players lost.
pub fn coerce_players_lose(k: Option<GameEnd>) -> (r: Result<
    Option<ExtractedMoveEnvelopes>,
    CompilationError,
>)
    ensures
        match k {
            Some(GameEnd::PlayersLose(ms)) => r == Ok::<
                Option<ExtractedMoveEnvelopes>,
                CompilationError,
            >(Some(ms)),
            Some(_) => r matches Err(CompilationError::ContinuationCoercion(why)) && why@
                == "Failed to coerce GameEnd into ExtractedMoveEnvelopes"@,
            None => r == Ok::<Option<ExtractedMoveEnvelopes>, CompilationError>(None),
        },
{
    match k {
        Some(GameEnd::PlayersLose(ms)) => Ok(Some(ms)),
        Some(_) => Err(
            CompilationError::ContinuationCoercion(
                String::from_str("Failed to coerce GameEnd into ExtractedMoveEnvelopes"),
            ),
        ),
        None => Ok(None),
    }
}

/// Whether the game ends by degrading.
pub fn coerce_degrade(k: Option<GameEnd>) -> (r: Result<Option<()>, CompilationError>)
    ensures
        match k {
            Some(GameEnd::Degrade) => r == Ok::<Option<()>, CompilationError>(Some(())),
            Some(_) => r matches Err(CompilationError::ContinuationCoercion(why)) && why@
                == "Failed to coerce GameEnd into Degrade"@,
            None => r == Ok::<Option<()>, CompilationError>(None),
        },
{
    match k {
        Some(GameEnd::Degrade) => Ok(Some(())),
        Some(_) => Err(
            CompilationError::ContinuationCoercion(
                String::from_str("Failed to coerce GameEnd into Degrade"),
            ),
        ),
        None => Ok(None),
    }
}

} // verus!
