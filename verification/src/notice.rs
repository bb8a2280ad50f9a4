//! What a player is told in answer to a command.

use vstd::prelude::*;
use vstd::string::*;
use crate::amount::{amount_text, format_amount};
use crate::text::{format_u64, natural_text};
use crate::command::Usage;
use crate::directory::DirectoryError;
use crate::error::{ErrorKind, PayError};
use crate::order::OrderType;

verus! {

/// One answer to a player.
#[derive(Debug, PartialEq, Eq)]
pub enum Notice {
    /// How the command is to be written.
    Usage(Usage),
    /// The item is not traded.
    ItemUnavailable { item: String },
    /// The order was taken.
    OrderCreated { order_type: OrderType, quantity: u32, item: String },
    /// The player's balance.
    Balance { player: String, balance: i64 },
    /// The payment went through.
    Paid { amount: i64, recipient: String },
    /// The payment was refused.
    PayRefused(PayError),
}

/// The mathematical value of a [`Notice`].
pub enum NoticeView {
    Usage(Usage),
    ItemUnavailable { item: Seq<char> },
    OrderCreated { order_type: OrderType, quantity: u32, item: Seq<char> },
    Balance { player: Seq<char>, balance: i64 },
    Paid { amount: i64, recipient: Seq<char> },
    PayRefused(PayError),
}

impl View for Notice {
    type V = NoticeView;

    open spec fn view(&self) -> NoticeView {
        match *self {
            Notice::Usage(u) => NoticeView::Usage(u),
            Notice::ItemUnavailable { item } => NoticeView::ItemUnavailable { item: item@ },
            Notice::OrderCreated { order_type, quantity, item } => NoticeView::OrderCreated {
                order_type,
                quantity,
                item: item@,
            },
            Notice::Balance { player, balance } => NoticeView::Balance {
                player: player@,
                balance,
            },
            Notice::Paid { amount, recipient } => NoticeView::Paid {
                amount,
                recipient: recipient@,
            },
            Notice::PayRefused(e) => NoticeView::PayRefused(e),
        }
    }
}

/// Why a command was dropped without an answer to the player.
#[derive(Debug, Clone, Copy, PartialEq, Eq, Structural)]
pub enum CommandError {
    /// The quantity of a `buy` or `sell` cannot be read.
    InvalidQuantity,
    /// The amount of a `pay` cannot be read.
    InvalidAmount,
    /// The directory gave no identifier for the player who sent the command.
    Directory(DirectoryError),
}

impl CommandError {
    /// The class of this failure.
    pub open spec fn spec_kind(self) -> ErrorKind {
        match self {
            CommandError::Directory(_) => ErrorKind::DirectoryFailure,
            _ => ErrorKind::Validation,
        }
    }

    /// The class of this failure: `Validation` for a number that cannot be read,
    /// `DirectoryFailure` for a name that does not resolve.
    pub fn kind(&self) -> (k: ErrorKind)
        ensures
            k == self.spec_kind(),
    {
        match self {
            CommandError::Directory(_) => ErrorKind::DirectoryFailure,
            _ => ErrorKind::Validation,
        }
    }
}

/// The outcome `r` of a command as a mathematical value.
pub open spec fn reply_view(r: Result<Notice, CommandError>) -> Result<NoticeView, CommandError> {
    match r {
        Ok(notice) => Ok(notice@),
        Err(e) => Err(e),
    }
}

/// The usage line `usage`.
pub open spec fn usage_text(usage: Usage) -> Seq<char> {
    match usage {
        Usage::Buy => "Usage: buy <item> <quantity>"@,
        Usage::Sell => "Usage: sell <item> <quantity>"@,
        Usage::Pay => "Usage: pay <player> <amount>"@,
        Usage::Commands => "Available commands: buy, sell, balance, pay"@,
    }
}

/// The word for an order of the kind `order_type`.
pub open spec fn order_word(order_type: OrderType) -> Seq<char> {
    match order_type {
        OrderType::Buy => "buy"@,
        OrderType::Sell => "sell"@,
        OrderType::Deposit => "deposit"@,
        OrderType::Withdraw => "withdraw"@,
    }
}

/// What a player reads when a payment is refused for the reason `e`.
pub open spec fn refusal_text(e: PayError) -> Seq<char> {
    match e {
        PayError::PayerUnresolved(DirectoryError::NotFound) | PayError::PayeeUnresolved(
            DirectoryError::NotFound,
        ) => "Player not found"@,
        PayError::PayerUnresolved(DirectoryError::LookupFailed) | PayError::PayeeUnresolved(
            DirectoryError::LookupFailed,
        ) => "Player lookup failed"@,
        PayError::PayerMissing => "Payer not found"@,
        PayError::AmountNotPositive => "Amount must be positive"@,
        PayError::InsufficientBalance { required, available } => "Insufficient balance. Required: "@
            + amount_text(required as int) + ", Available: "@ + amount_text(available as int),
    }
}

impl NoticeView {
    /// The words of this notice.
    pub open spec fn text(self) -> Seq<char> {
        match self {
            NoticeView::Usage(usage) => usage_text(usage),
            NoticeView::ItemUnavailable { item } => "Item '"@ + item
                + "' is not available for trading"@,
            NoticeView::OrderCreated { order_type, quantity, item } => "Created "@ + order_word(
                order_type,
            ) + " order for "@ + natural_text(quantity as nat) + " "@ + item,
            NoticeView::Balance { player, balance } => player + "'s balance: "@ + amount_text(
                balance as int,
            ) + " diamonds"@,
            NoticeView::Paid { amount, recipient } => "Paid "@ + amount_text(amount as int)
                + " diamonds to "@ + recipient,
            NoticeView::PayRefused(e) => refusal_text(e),
        }
    }
}

impl PayError {
    /// What a player reads when a payment is refused for this reason.
    pub fn text(&self) -> (r: String)
        ensures
            r@ == refusal_text(*self),
    {
        match self {
            PayError::PayerUnresolved(DirectoryError::NotFound) | PayError::PayeeUnresolved(
                DirectoryError::NotFound,
            ) => "Player not found".to_owned(),
            PayError::PayerUnresolved(DirectoryError::LookupFailed) | PayError::PayeeUnresolved(
                DirectoryError::LookupFailed,
            ) => "Player lookup failed".to_owned(),
            PayError::PayerMissing => "Payer not found".to_owned(),
            PayError::AmountNotPositive => "Amount must be positive".to_owned(),
            PayError::InsufficientBalance { required, available } => {
                let mut r = "Insufficient balance. Required: ".to_owned();
                r.append(format_amount(*required).as_str());
                r.append(", Available: ");
                r.append(format_amount(*available).as_str());
                r
            },
        }
    }
}

impl Notice {
    /// The words of this notice, as the player reads them.
    pub fn text(&self) -> (r: String)
        ensures
            r@ == self@.text(),
    {
        match self {
            Notice::Usage(usage) => match usage {
                Usage::Buy => "Usage: buy <item> <quantity>".to_owned(),
                Usage::Sell => "Usage: sell <item> <quantity>".to_owned(),
                Usage::Pay => "Usage: pay <player> <amount>".to_owned(),
                Usage::Commands => "Available commands: buy, sell, balance, pay".to_owned(),
            },
            Notice::ItemUnavailable { item } => {
                let mut r = "Item '".to_owned();
                r.append(item.as_str());
                r.append("' is not available for trading");
                r
            },
            Notice::OrderCreated { order_type, quantity, item } => {
                let mut r = "Created ".to_owned();
                r.append(
                    match order_type {
                        OrderType::Buy => "buy",
                        OrderType::Sell => "sell",
                        OrderType::Deposit => "deposit",
                        OrderType::Withdraw => "withdraw",
                    },
                );
                r.append(" order for ");
                r.append(format_u64(*quantity as u64).as_str());
                r.append(" ");
                r.append(item.as_str());
                r
            },
            Notice::Balance { player, balance } => {
                let mut r = player.clone();
                r.append("'s balance: ");
                r.append(format_amount(*balance).as_str());
                r.append(" diamonds");
                r
            },
            Notice::Paid { amount, recipient } => {
                let mut r = "Paid ".to_owned();
                r.append(format_amount(*amount).as_str());
                r.append(" diamonds to ");
                r.append(recipient.as_str());
                r
            },
            Notice::PayRefused(e) => e.text(),
        }
    }
}

} // verus!
