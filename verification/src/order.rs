//! Orders: what players have asked for and what is still to be carried out.

use std::collections::VecDeque;
use vstd::prelude::*;

verus! {

/// What an order asks for.
#[derive(Debug, Clone, Copy, PartialEq, Eq, Structural)]
pub enum OrderType {
    Buy,
    Sell,
    Deposit,
    Withdraw,
}

impl Default for OrderType {
    fn default() -> (t: OrderType)
        ensures
            t == OrderType::Buy,
    {
        OrderType::Buy
    }
}

/// One queued order. The queue keeps orders in the order in which they came.
#[derive(Debug, PartialEq, Eq)]
pub struct Order {
    pub order_type: OrderType,
    pub item: String,
    pub amount: i32,
    /// The stable identifier of the player who placed the order.
    pub user_uuid: String,
}

/// The mathematical value of an [`Order`].
pub struct OrderView {
    pub order_type: OrderType,
    pub item: Seq<char>,
    pub amount: int,
    pub user_uuid: Seq<char>,
}

impl View for Order {
    type V = OrderView;

    open spec fn view(&self) -> OrderView {
        OrderView {
            order_type: self.order_type,
            item: self.item@,
            amount: self.amount as int,
            user_uuid: self.user_uuid@,
        }
    }
}

impl Clone for Order {
    fn clone(&self) -> (r: Order)
        ensures
            r == *self,
    {
        Order {
            order_type: self.order_type,
            item: self.item.clone(),
            amount: self.amount,
            user_uuid: self.user_uuid.clone(),
        }
    }
}

impl Default for Order {
    /// A buy order for nothing, by nobody.
    fn default() -> (o: Order)
        ensures
            o@ == (OrderView {
                order_type: OrderType::Buy,
                item: Seq::<char>::empty(),
                amount: 0,
                user_uuid: Seq::<char>::empty(),
            }),
    {
        Order {
            order_type: OrderType::Buy,
            item: String::new(),
            amount: 0,
            user_uuid: String::new(),
        }
    }
}

impl Order {
    /// The file that keeps the whole queue.
    pub const ORDERS_FILE: &'static str = "data/orders.json";

    /// Makes the queue of what a load read from its file: the orders in the file, and
    /// an empty queue where the file is missing or cannot be read.
    pub fn load_all(loaded: Option<VecDeque<Order>>) -> (orders: VecDeque<Order>)
        ensures
            orders@ == (match loaded {
                Some(queue) => queue@,
                None => Seq::<Order>::empty(),
            }),
    {
        match loaded {
            Some(queue) => queue,
            None => VecDeque::new(),
        }
    }
}

} // verus!
