//! The report that a history gives of itself in words.

use crate::stats::ConversationStats;
use vstd::prelude::*;
use vstd::string::StringExecFns;

verus! {

/// The character for a single decimal digit.
pub open spec fn digit_char(digit: nat) -> char {
    if digit == 0 {
        '0'
    } else if digit == 1 {
        '1'
    } else if digit == 2 {
        '2'
    } else if digit == 3 {
        '3'
    } else if digit == 4 {
        '4'
    } else if digit == 5 {
        '5'
    } else if digit == 6 {
        '6'
    } else if digit == 7 {
        '7'
    } else if digit == 8 {
        '8'
    } else {
        '9'
    }
}

/// A number written in decimal, without leading zeros.
pub open spec fn decimal_of(number: nat) -> Seq<char>
    decreases number,
{
    if number < 10 {
        seq![digit_char(number)]
    } else {
        decimal_of(number / 10).push(digit_char(number % 10))
    }
}

/// The text of the report for the given counters.
pub open spec fn report_text(
    messages: nat,
    tokens: nat,
    utilization: nat,
    compressed: nat,
    important: nat,
) -> Seq<char> {
    "🚀 Migration Complete!\n📊 Total messages: "@ + decimal_of(messages)
        + "\n💾 Total tokens: "@ + decimal_of(tokens) + "\n📈 Utilization: "@ + decimal_of(
        utilization,
    ) + "%\n🗜️ Compressed messages: "@ + decimal_of(compressed) + "\n⭐ High importance: "@
        + decimal_of(important) + "\n\n💕 Ready for 20% token reduction!"@
}

/// The text of one decimal digit.
fn digit_text(digit: usize) -> (text: &'static str)
    requires
        digit < 10,
    ensures
        text@ == seq![digit_char(digit as nat)],
{
    proof {
        reveal_strlit("0");
        reveal_strlit("1");
        reveal_strlit("2");
        reveal_strlit("3");
        reveal_strlit("4");
        reveal_strlit("5");
        reveal_strlit("6");
        reveal_strlit("7");
        reveal_strlit("8");
        reveal_strlit("9");
    }
    let text: &'static str = if digit == 0 {
        "0"
    } else if digit == 1 {
        "1"
    } else if digit == 2 {
        "2"
    } else if digit == 3 {
        "3"
    } else if digit == 4 {
        "4"
    } else if digit == 5 {
        "5"
    } else if digit == 6 {
        "6"
    } else if digit == 7 {
        "7"
    } else if digit == 8 {
        "8"
    } else {
        "9"
    };
    assert(text@ =~= seq![digit_char(digit as nat)]);
    text
}

/// Writes `number` in decimal.
pub fn decimal_string(number: usize) -> (text: String)
    ensures
        text@ == decimal_of(number as nat),
    decreases number,
{
    if number < 10 {
        digit_text(number).to_owned()
    } else {
        let mut text = decimal_string(number / 10);
        text.append(digit_text(number % 10));
        assert(text@ =~= decimal_of(number as nat));
        text
    }
}

/// Writes the report for `stats`.
pub fn migration_report(stats: &ConversationStats) -> (report: String)
    ensures
        report@ == report_text(
            stats.total_messages as nat,
            stats.total_tokens as nat,
            stats.utilization_percentage as nat,
            stats.compressed_messages as nat,
            stats.high_importance_messages as nat,
        ),
{
    let mut report = "🚀 Migration Complete!\n📊 Total messages: ".to_owned();
    report.append(decimal_string(stats.total_messages).as_str());
    report.append("\n💾 Total tokens: ");
    report.append(decimal_string(stats.total_tokens).as_str());
    report.append("\n📈 Utilization: ");
    report.append(decimal_string(stats.utilization_percentage as usize).as_str());
    report.append("%\n🗜️ Compressed messages: ");
    report.append(decimal_string(stats.compressed_messages).as_str());
    report.append("\n⭐ High importance: ");
    report.append(decimal_string(stats.high_importance_messages).as_str());
    report.append("\n\n💕 Ready for 20% token reduction!");
    report
}

} // verus!
