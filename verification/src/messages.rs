//! What the store is told and what it tells: the messages between the store, the game
//! session and the console, without the channels that carry them.

use vstd::prelude::*;
use crate::chest::Chest;
use crate::error::ErrorKind;
use crate::notice::{CommandError, Notice};
use crate::trade::Trade;
use crate::user::User;

verus! {

/// What is done at a chest.
#[derive(Debug, PartialEq, Eq)]
pub enum ChestAction {
    Deposit { items: Vec<String> },
    Withdraw { items: Vec<String> },
    Check,
}

/// What the game session tells the store.
#[derive(Debug, PartialEq, Eq)]
pub enum BotMessage {
    /// A player whispered a command.
    PlayerCommand { player_name: String, command: String },
}

/// What the console asks of the store. Each request is answered once.
#[derive(Debug, PartialEq, Eq)]
pub enum CliMessage {
    /// All accounts, as they are now.
    QueryBalances,
    /// A new price for an item, in thousandths of a diamond.
    UpdatePrice { item_name: String, new_price: i64 },
    /// A restart of the game session.
    RestartBot,
    /// The end of the engine.
    Shutdown,
}

/// What the store is told.
#[derive(Debug, PartialEq, Eq)]
pub enum StoreMessage {
    FromBot(BotMessage),
    FromCli(CliMessage),
}

/// What the store tells the game session to do.
#[derive(Debug, PartialEq, Eq)]
pub enum BotInstruction {
    /// Go to a chest and act on it.
    InteractWithChest { target_chest: Chest, action: ChestAction },
    /// Carry out a trade with a player.
    ProcessTrade { trade_details: Trade },
    /// Whisper a notice to a player.
    Tell { player_name: String, text: String },
    /// Leave the server and join again.
    Restart,
    /// Leave the server for good.
    Shutdown,
}

/// What is to be done about a request of the console.
#[derive(Debug, PartialEq, Eq)]
pub enum CliAction {
    /// Answer with the accounts.
    ReplyBalances(Vec<User>),
    /// Answer with the outcome of the price update.
    ReplyPrice(Result<(), ErrorKind>),
    /// Pass the instruction on to the game session. A restart is answered at once, with
    /// [`restart_reply`] of whether the instruction could be passed on; a shutdown is
    /// answered when the session has answered or is gone and everything is saved.
    Forward(BotInstruction),
}

/// What a message to the store led to.
#[derive(Debug, PartialEq, Eq)]
pub enum Outcome {
    /// A player's command was carried out: what the player is told, or why nothing.
    Player(Result<Notice, CommandError>),
    /// A request of the console was looked at: what is to be done about it.
    Console(CliAction),
}

/// The instruction that sends `notice` to the player `player_name`.
pub fn tell(player_name: &str, notice: &Notice) -> (instruction: BotInstruction)
    ensures
        instruction matches BotInstruction::Tell { player_name: to, text } && to@ == player_name@
            && text@ == notice@.text(),
{
    BotInstruction::Tell { player_name: player_name.to_owned(), text: notice.text() }
}

/// The answer to a request for a restart: fine where the instruction reached the game
/// session, `ChannelClosed` where the session was gone.
pub fn restart_reply(sent: bool) -> (r: Result<(), ErrorKind>)
    ensures
        r == (if sent {
            Ok::<(), ErrorKind>(())
        } else {
            Err::<(), ErrorKind>(ErrorKind::ChannelClosed)
        }),
{
    if sent {
        Ok(())
    } else {
        Err(ErrorKind::ChannelClosed)
    }
}

} // verus!
