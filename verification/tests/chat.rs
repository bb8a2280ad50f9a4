use trade_store::chat::{rest_after, whisper};
use trade_store::messages::{tell, BotInstruction, BotMessage};
use trade_store::notice::Notice;

#[test]
fn whispers_are_told_from_the_chat() {
    assert_eq!(whisper("alice whispers: buy diamond 10"), Some(String::from("buy diamond 10")));
    assert_eq!(whisper("bob tells you:   bal  "), Some(String::from("bal")));
    assert_eq!(whisper("bob tells you:"), Some(String::new()));
    assert_eq!(whisper("<alice> hello everybody"), None);
    assert_eq!(whisper(""), None);
    assert_eq!(whisper("Whispers: buy"), None);
}

#[test]
fn the_first_marker_counts() {
    assert_eq!(
        whisper("a whispers: say whispers: twice"),
        Some(String::from("say whispers: twice"))
    );
    assert_eq!(
        whisper("x tells you: that y whispers: pay z 1"),
        Some(String::from("pay z 1"))
    );
    assert_eq!(rest_after("a-b-c", "-"), Some(String::from("b-c")));
    assert_eq!(rest_after("abc", "c"), Some(String::new()));
    assert_eq!(rest_after("abc", "d"), None);
    assert_eq!(rest_after("aab", "ab"), Some(String::new()));
}

#[test]
fn a_whisper_becomes_a_command_of_its_sender() {
    assert_eq!(
        BotMessage::from_chat(Some(String::from("alice")), "alice whispers: pay bob 5"),
        Some(BotMessage::PlayerCommand {
            player_name: String::from("alice"),
            command: String::from("pay bob 5")
        })
    );
    assert_eq!(
        BotMessage::from_chat(None, "someone tells you:\tbalance\n"),
        Some(BotMessage::PlayerCommand {
            player_name: String::from("Unknown"),
            command: String::from("balance")
        })
    );
    assert_eq!(BotMessage::from_chat(Some(String::from("alice")), "good morning"), None);
}

#[test]
fn a_notice_is_sent_as_a_whisper() {
    let notice = Notice::Paid { amount: 2_500, recipient: String::from("bob") };
    assert_eq!(
        tell("alice", &notice),
        BotInstruction::Tell {
            player_name: String::from("alice"),
            text: String::from("Paid 2.5 diamonds to bob")
        }
    );
}
