//! The chat commands that players whisper: `buy`, `sell`, `bal` / `balance` and `pay`.
//!
//! A command is cut into words at white space. The first word names the command, and it
//! is matched as written: `Buy` is no command.

use vstd::prelude::*;
use crate::amount::{parse_amount, spec_parse_amount};
use crate::text::{parse_u32, same_text, spec_parse_u32};

verus! {

/// Which usage line a player is shown.
#[derive(Debug, Clone, Copy, PartialEq, Eq, Structural)]
pub enum Usage {
    /// `buy` came with too few words.
    Buy,
    /// `sell` came with too few words.
    Sell,
    /// `pay` came with too few words.
    Pay,
    /// The first word is no command, or there is none: the list of commands.
    Commands,
}

/// What a player asked for.
#[derive(Debug, PartialEq, Eq)]
pub enum Command {
    Buy { item: String, quantity: u32 },
    Sell { item: String, quantity: u32 },
    Balance,
    /// A payment of `amount` thousandths of a diamond.
    Pay { recipient: String, amount: i64 },
    /// `buy` or `sell` with a quantity that is no `u32` in decimal.
    InvalidQuantity,
    /// `pay` with an amount that cannot be read: see [`crate::amount::amount_value`].
    InvalidAmount,
    /// Nothing that can be carried out: the player is to be shown how to ask.
    Usage(Usage),
}

/// The mathematical value of a [`Command`].
pub enum CommandView {
    Buy { item: Seq<char>, quantity: u32 },
    Sell { item: Seq<char>, quantity: u32 },
    Balance,
    Pay { recipient: Seq<char>, amount: i64 },
    InvalidQuantity,
    InvalidAmount,
    Usage(Usage),
}

impl View for Command {
    type V = CommandView;

    open spec fn view(&self) -> CommandView {
        match *self {
            Command::Buy { item, quantity } => CommandView::Buy { item: item@, quantity },
            Command::Sell { item, quantity } => CommandView::Sell { item: item@, quantity },
            Command::Balance => CommandView::Balance,
            Command::Pay { recipient, amount } => CommandView::Pay {
                recipient: recipient@,
                amount,
            },
            Command::InvalidQuantity => CommandView::InvalidQuantity,
            Command::InvalidAmount => CommandView::InvalidAmount,
            Command::Usage(u) => CommandView::Usage(u),
        }
    }
}

/// The words of `tokens` as plain characters.
pub open spec fn words_of(tokens: Seq<String>) -> Seq<Seq<char>> {
    tokens.map_values(|t: String| t@)
}

/// The command that the words `words` make up. Words after the third are ignored.
pub open spec fn command_of(words: Seq<Seq<char>>) -> CommandView {
    if words.len() == 0 {
        CommandView::Usage(Usage::Commands)
    } else if words[0] == "buy"@ {
        if words.len() < 3 {
            CommandView::Usage(Usage::Buy)
        } else {
            match spec_parse_u32(words[2]) {
                Some(quantity) => CommandView::Buy { item: words[1], quantity },
                None => CommandView::InvalidQuantity,
            }
        }
    } else if words[0] == "sell"@ {
        if words.len() < 3 {
            CommandView::Usage(Usage::Sell)
        } else {
            match spec_parse_u32(words[2]) {
                Some(quantity) => CommandView::Sell { item: words[1], quantity },
                None => CommandView::InvalidQuantity,
            }
        }
    } else if words[0] == "bal"@ || words[0] == "balance"@ {
        CommandView::Balance
    } else if words[0] == "pay"@ {
        if words.len() < 3 {
            CommandView::Usage(Usage::Pay)
        } else {
            match spec_parse_amount(words[2]) {
                Some(amount) => CommandView::Pay { recipient: words[1], amount },
                None => CommandView::InvalidAmount,
            }
        }
    } else {
        CommandView::Usage(Usage::Commands)
    }
}

/// The display names that the directory is to be asked for before `command` of `player`
/// is carried out: that of the player for an order, a balance or a payment, and that of
/// the recipient of a payment as well.
pub open spec fn names_needed(player: Seq<char>, command: CommandView) -> Seq<Seq<char>> {
    match command {
        CommandView::Buy { .. } | CommandView::Sell { .. } | CommandView::Balance => seq![player],
        CommandView::Pay { recipient, .. } => seq![player, recipient],
        _ => Seq::<Seq<char>>::empty(),
    }
}

/// The words of `text`: what `str::split_whitespace` cuts it into.
pub uninterp spec fn whitespace_words(text: Seq<char>) -> Seq<Seq<char>>;

/// Cuts `text` into its words with `str::split_whitespace`. The contract gives the
/// outcome the name [`whitespace_words`] and claims only that it depends on the
/// characters of `text` alone.
#[verifier::external_body]
fn split_words(text: &str) -> (tokens: Vec<String>)
    ensures
        words_of(tokens@) == whitespace_words(text@),
{
    text.split_whitespace().map(|word| word.to_string()).collect()
}

impl Command {
    /// The command that `tokens`, the words of a message, make up.
    pub fn from_tokens(tokens: &Vec<String>) -> (c: Command)
        ensures
            c@ == command_of(words_of(tokens@)),
    {
        let ghost words = words_of(tokens@);
        if tokens.len() == 0 {
            return Command::Usage(Usage::Commands);
        }
        assert(words[0] == tokens[0]@);
        let first = tokens[0].as_str();
        if same_text(first, "buy") {
            if tokens.len() < 3 {
                return Command::Usage(Usage::Buy);
            }
            assert(words[1] == tokens[1]@ && words[2] == tokens[2]@);
            match parse_u32(tokens[2].as_str()) {
                Some(quantity) => Command::Buy { item: tokens[1].clone(), quantity },
                None => Command::InvalidQuantity,
            }
        } else if same_text(first, "sell") {
            if tokens.len() < 3 {
                return Command::Usage(Usage::Sell);
            }
            assert(words[1] == tokens[1]@ && words[2] == tokens[2]@);
            match parse_u32(tokens[2].as_str()) {
                Some(quantity) => Command::Sell { item: tokens[1].clone(), quantity },
                None => Command::InvalidQuantity,
            }
        } else if same_text(first, "bal") || same_text(first, "balance") {
            Command::Balance
        } else if same_text(first, "pay") {
            if tokens.len() < 3 {
                return Command::Usage(Usage::Pay);
            }
            assert(words[1] == tokens[1]@ && words[2] == tokens[2]@);
            match parse_amount(tokens[2].as_str()) {
                Some(amount) => Command::Pay { recipient: tokens[1].clone(), amount },
                None => Command::InvalidAmount,
            }
        } else {
            Command::Usage(Usage::Commands)
        }
    }

    /// The display names that the directory is to be asked for before this command of
    /// `player_name` is carried out.
    pub fn lookups(&self, player_name: &str) -> (names: Vec<String>)
        ensures
            words_of(names@) == names_needed(player_name@, self@),
    {
        let mut names: Vec<String> = Vec::new();
        match self {
            Command::Buy { .. } | Command::Sell { .. } | Command::Balance => {
                names.push(player_name.to_owned());
            },
            Command::Pay { recipient, .. } => {
                names.push(player_name.to_owned());
                names.push(recipient.clone());
            },
            _ => {},
        }
        assert(words_of(names@) =~= names_needed(player_name@, self@));
        names
    }

    /// The command written in `text`.
    pub fn parse(text: &str) -> (c: Command)
        ensures
            c@ == command_of(whitespace_words(text@)),
    {
        let tokens = split_words(text);
        Command::from_tokens(&tokens)
    }
}

} // verus!
