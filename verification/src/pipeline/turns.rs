//! What the pipeline tells its caller, and one line of text for each such event.

use vstd::prelude::*;
use vstd::string::*;

use crate::text::{
    decimal, decimal_text, has_prefix, has_suffix, law_decimals_read_back, law_padding_keeps_the_number,
    number_of, zero_padded, zero_padded_text,
};
use crate::types::{ParagraphId, SentenceId};

verus! {

/// One event for the caller. Times are in microseconds.
#[derive(Debug)]
pub enum TurnEvent {
    /// Streaming text of the sentence being spoken.
    StreamFragment { paragraph_id: ParagraphId, sentence_id: SentenceId, text: String, at_us: i64 },
    /// No further sentence joins this paragraph.
    ParagraphClosed { paragraph_id: ParagraphId },
    /// The batch text of a sentence.
    BatchSentence { paragraph_id: ParagraphId, sentence_id: SentenceId, text: String },
    /// The batch text of a whole paragraph.
    BatchParagraph { paragraph_id: ParagraphId, text: String },
    /// The polished text of the open paragraph up to a sentence.
    SentenceCalibration {
        paragraph_id: ParagraphId,
        sentence_id: SentenceId,
        calibrated: String,
        route_us: u64,
    },
    /// The final text of a paragraph.
    ParagraphCalibration { paragraph_id: ParagraphId, calibrated: String, route_us: u64 },
}

/// A text as `std` writes it for debugging: in quotes, with escapes.
pub uninterp spec fn debug_quoted(s: Seq<char>) -> Seq<char>;

/// `format!` with `{:?}` on a string slice. The result is a function of the text; the escapes
/// that `std` chooses are left unsaid.
#[verifier::external_body]
pub(crate) fn debug_text(s: &str) -> (r: String)
    ensures
        r@ == debug_quoted(s@),
{
    format!("{:?}", s)
}

/// The text that an event carries.
pub open spec fn text_of(ev: TurnEvent) -> Option<Seq<char>> {
    match ev {
        TurnEvent::StreamFragment { text, .. } => Some(text@),
        TurnEvent::ParagraphClosed { .. } => None,
        TurnEvent::BatchSentence { text, .. } => Some(text@),
        TurnEvent::BatchParagraph { text, .. } => Some(text@),
        TurnEvent::SentenceCalibration { calibrated, .. } => Some(calibrated@),
        TurnEvent::ParagraphCalibration { calibrated, .. } => Some(calibrated@),
    }
}

/// How many units are nearest to `n`; of two that are equally near the larger where `up` says so.
pub open spec fn nearest(n: int, unit: int, up: bool) -> int {
    if 2 * (n % unit) > unit || (2 * (n % unit) == unit && up) {
        n / unit + 1
    } else {
        n / unit
    }
}

/// How far from zero a time is.
pub open spec fn distance(us: int) -> int {
    if us < 0 {
        -us
    } else {
        us
    }
}

/// The nearest hundredth of a second to a time in microseconds. Half a hundredth is rounded away
/// from zero, but where it is a multiple of an eighth of a second, and so a binary fraction, to
/// the even neighbour.
pub open spec fn hundredths(us: int) -> int {
    let n = distance(us);
    nearest(n, 10_000, n % 125_000 != 0 || n / 10_000 % 2 == 1)
}

/// A time in microseconds as seconds with two places.
pub open spec fn seconds_figure(us: int) -> Seq<char> {
    (if us < 0 {
        "-"@
    } else {
        ""@
    }) + decimal((hundredths(us) / 100) as nat) + "."@ + zero_padded(
        (hundredths(us) % 100) as nat,
        2,
    )
}

/// The nearest millisecond to a duration in microseconds, half of one rounded to the even
/// neighbour.
pub open spec fn whole_millis(us: int) -> int {
    nearest(us, 1000, us / 1000 % 2 == 1)
}

/// A duration in microseconds as whole milliseconds.
pub open spec fn millis_figure(us: int) -> Seq<char> {
    decimal(whole_millis(us) as nat)
}

/// Law: the figures are nearest: a time is shown within half a hundredth of a second and a
/// duration within half a millisecond.
pub proof fn law_figures_are_nearest(at_us: int, route_us: int)
    requires
        route_us >= 0,
    ensures
        -5_000 <= distance(at_us) - 10_000 * hundredths(at_us) <= 5_000,
        -500 <= route_us - 1000 * whole_millis(route_us) <= 500,
{
}

fn nearest_of(n: u64, unit: u64, up: bool) -> (r: u64)
    requires
        unit > 1,
    ensures
        r == nearest(n as int, unit as int, up),
{
    let over: u128 = 2 * ((n % unit) as u128);
    proof {
        assert(n / unit < u64::MAX) by (nonlinear_arith)
            requires
                0 <= n <= u64::MAX,
                unit > 1,
        ;
    }
    if over > unit as u128 || (over == unit as u128 && up) {
        n / unit + 1
    } else {
        n / unit
    }
}

/// A time in microseconds as seconds with two places.
pub fn write_seconds(us: i64) -> (r: String)
    ensures
        r@ == seconds_figure(us as int),
{
    let n: u64 = if us < 0 {
        (-(us as i128)) as u64
    } else {
        us as u64
    };
    let h: u64 = nearest_of(n, 10_000, n % 125_000 != 0 || n / 10_000 % 2 == 1);
    let mut s = if us < 0 {
        "-".to_owned()
    } else {
        "".to_owned()
    };
    s.append(decimal_text(h / 100).as_str());
    s.append(".");
    s.append(zero_padded_text(h % 100, 2).as_str());
    s
}

/// A duration in microseconds as whole milliseconds.
pub fn write_millis(us: u64) -> (r: String)
    ensures
        r@ == millis_figure(us as int),
{
    decimal_text(nearest_of(us, 1000, us / 1000 % 2 == 1))
}

/// One line for the log: the kind of event, its ids, the time of a fragment in seconds, the
/// duration of a calibration in milliseconds, and its text as it is `quoted`.
pub open spec fn turn_line(ev: TurnEvent, quoted: Seq<char>) -> Seq<char> {
    match ev {
        TurnEvent::StreamFragment { paragraph_id, sentence_id, at_us, .. } => "stream p"@ + decimal(
            paragraph_id as nat,
        ) + " s"@ + decimal(sentence_id as nat) + " @"@ + seconds_figure(at_us as int) + " "@
            + quoted,
        TurnEvent::ParagraphClosed { paragraph_id } => "paragraph_closed p"@ + decimal(
            paragraph_id as nat,
        ),
        TurnEvent::BatchSentence { paragraph_id, sentence_id, .. } => "batch_sentence p"@
            + decimal(paragraph_id as nat) + " s"@ + decimal(sentence_id as nat) + " "@ + quoted,
        TurnEvent::BatchParagraph { paragraph_id, .. } => "batch_paragraph p"@ + decimal(
            paragraph_id as nat,
        ) + " "@ + quoted,
        TurnEvent::SentenceCalibration { paragraph_id, sentence_id, route_us, .. } =>
            "sentence_calibration p"@ + decimal(paragraph_id as nat) + " s"@ + decimal(
            sentence_id as nat,
        ) + " "@ + millis_figure(route_us as int) + "ms "@ + quoted,
        TurnEvent::ParagraphCalibration { paragraph_id, route_us, .. } => "paragraph_calibration p"@
            + decimal(paragraph_id as nat) + " "@ + millis_figure(route_us as int) + "ms "@ + quoted,
    }
}

/// One line for the log, the event's text being `quoted` already.
pub fn write_turn_line(ev: &TurnEvent, quoted: &str) -> (r: String)
    ensures
        r@ == turn_line(*ev, quoted@),
{
    match ev {
        TurnEvent::StreamFragment { paragraph_id, sentence_id, text: _, at_us } => {
            let mut s = "stream p".to_owned();
            s.append(decimal_text(*paragraph_id).as_str());
            s.append(" s");
            s.append(decimal_text(*sentence_id).as_str());
            s.append(" @");
            s.append(write_seconds(*at_us).as_str());
            s.append(" ");
            s.append(quoted);
            s
        },
        TurnEvent::ParagraphClosed { paragraph_id } => {
            let mut s = "paragraph_closed p".to_owned();
            s.append(decimal_text(*paragraph_id).as_str());
            s
        },
        TurnEvent::BatchSentence { paragraph_id, sentence_id, text: _ } => {
            let mut s = "batch_sentence p".to_owned();
            s.append(decimal_text(*paragraph_id).as_str());
            s.append(" s");
            s.append(decimal_text(*sentence_id).as_str());
            s.append(" ");
            s.append(quoted);
            s
        },
        TurnEvent::BatchParagraph { paragraph_id, text: _ } => {
            let mut s = "batch_paragraph p".to_owned();
            s.append(decimal_text(*paragraph_id).as_str());
            s.append(" ");
            s.append(quoted);
            s
        },
        TurnEvent::SentenceCalibration { paragraph_id, sentence_id, calibrated: _, route_us } => {
            let mut s = "sentence_calibration p".to_owned();
            s.append(decimal_text(*paragraph_id).as_str());
            s.append(" s");
            s.append(decimal_text(*sentence_id).as_str());
            s.append(" ");
            s.append(write_millis(*route_us).as_str());
            s.append("ms ");
            s.append(quoted);
            s
        },
        TurnEvent::ParagraphCalibration { paragraph_id, calibrated: _, route_us } => {
            let mut s = "paragraph_calibration p".to_owned();
            s.append(decimal_text(*paragraph_id).as_str());
            s.append(" ");
            s.append(write_millis(*route_us).as_str());
            s.append("ms ");
            s.append(quoted);
            s
        },
    }
}

/// One line for the log.
pub fn describe_turn(ev: &TurnEvent) -> (r: String)
    ensures
        match text_of(*ev) {
            Some(t) => r@ == turn_line(*ev, debug_quoted(t)),
            None => r@ == turn_line(*ev, Seq::empty()),
        },
{
    let text: &str = match ev {
        TurnEvent::StreamFragment { paragraph_id: _, sentence_id: _, text, at_us: _ } => {
            text.as_str()
        },
        TurnEvent::ParagraphClosed { paragraph_id: _ } => {
            let quoted = String::new();
            return write_turn_line(ev, quoted.as_str());
        },
        TurnEvent::BatchSentence { paragraph_id: _, sentence_id: _, text } => text.as_str(),
        TurnEvent::BatchParagraph { paragraph_id: _, text } => text.as_str(),
        TurnEvent::SentenceCalibration {
            paragraph_id: _,
            sentence_id: _,
            calibrated,
            route_us: _,
        } => calibrated.as_str(),
        TurnEvent::ParagraphCalibration { paragraph_id: _, calibrated, route_us: _ } => {
            calibrated.as_str()
        },
    };
    write_turn_line(ev, debug_text(text).as_str())
}

/// Law: a line tells the kind of its event and the paragraph it is about first, and its text, where
/// it has one, last.
pub proof fn law_a_line_tells_kind_paragraph_and_text(ev: TurnEvent, quoted: Seq<char>)
    ensures
        ({
            let line = turn_line(ev, quoted);
            &&& text_of(ev) is Some ==> has_suffix(line, " "@ + quoted)
            &&& match ev {
                TurnEvent::StreamFragment { paragraph_id, sentence_id, at_us, .. } => has_prefix(
                    line,
                    "stream p"@ + decimal(paragraph_id as nat) + " s"@ + decimal(
                        sentence_id as nat,
                    ) + " @"@ + seconds_figure(at_us as int),
                ),
                TurnEvent::ParagraphClosed { paragraph_id } => line == "paragraph_closed p"@
                    + decimal(paragraph_id as nat),
                TurnEvent::BatchSentence { paragraph_id, sentence_id, .. } => has_prefix(
                    line,
                    "batch_sentence p"@ + decimal(paragraph_id as nat) + " s"@ + decimal(
                        sentence_id as nat,
                    ),
                ),
                TurnEvent::BatchParagraph { paragraph_id, .. } => has_prefix(
                    line,
                    "batch_paragraph p"@ + decimal(paragraph_id as nat),
                ),
                TurnEvent::SentenceCalibration { paragraph_id, sentence_id, route_us, .. } =>
                    has_prefix(
                    line,
                    "sentence_calibration p"@ + decimal(paragraph_id as nat) + " s"@ + decimal(
                        sentence_id as nat,
                    ) + " "@ + millis_figure(route_us as int) + "ms"@,
                ),
                TurnEvent::ParagraphCalibration { paragraph_id, route_us, .. } => has_prefix(
                    line,
                    "paragraph_calibration p"@ + decimal(paragraph_id as nat) + " "@ + millis_figure(
                        route_us as int,
                    ) + "ms"@,
                ),
            }
        }),
{
    reveal_strlit("ms ");
    reveal_strlit("ms");
    reveal_strlit(" ");
    assert("ms "@ =~= "ms"@ + " "@);
    let line = turn_line(ev, quoted);
    let tail = " "@ + quoted;
    match ev {
        TurnEvent::StreamFragment { paragraph_id, sentence_id, at_us, .. } => {
            let head = "stream p"@ + decimal(paragraph_id as nat) + " s"@ + decimal(
                sentence_id as nat,
            ) + " @"@ + seconds_figure(at_us as int);
            lemma_two_parts(line, head, tail);
        },
        TurnEvent::ParagraphClosed { .. } => {},
        TurnEvent::BatchSentence { paragraph_id, sentence_id, .. } => {
            let head = "batch_sentence p"@ + decimal(paragraph_id as nat) + " s"@ + decimal(
                sentence_id as nat,
            );
            lemma_two_parts(line, head, tail);
        },
        TurnEvent::BatchParagraph { paragraph_id, .. } => {
            lemma_two_parts(line, "batch_paragraph p"@ + decimal(paragraph_id as nat), tail);
        },
        TurnEvent::SentenceCalibration { paragraph_id, sentence_id, route_us, .. } => {
            let head = "sentence_calibration p"@ + decimal(paragraph_id as nat) + " s"@ + decimal(
                sentence_id as nat,
            ) + " "@ + millis_figure(route_us as int) + "ms"@;
            lemma_two_parts(line, head, tail);
        },
        TurnEvent::ParagraphCalibration { paragraph_id, route_us, .. } => {
            let head = "paragraph_calibration p"@ + decimal(paragraph_id as nat) + " "@
                + millis_figure(route_us as int) + "ms"@;
            lemma_two_parts(line, head, tail);
        },
    }
}

proof fn lemma_two_parts(line: Seq<char>, head: Seq<char>, tail: Seq<char>)
    requires
        line =~= head + tail,
    ensures
        has_prefix(line, head),
        has_suffix(line, tail),
{
    assert(line.take(head.len() as int) =~= head);
    assert(line.skip(line.len() - tail.len()) =~= tail);
}

/// Law: a figure of seconds reads back: a sign before the origin and nowhere else, whole seconds,
/// a point and two digits of hundredths.
pub proof fn law_seconds_read_back(us: int)
    requires
        us >= 0,
    ensures
        ({
            let f = seconds_figure(us);
            let whole = f.take(f.len() - 3);
            &&& f.len() >= 4
            &&& f[f.len() - 3] == '.'
            &&& number_of(whole) * 100 + number_of(f.skip(f.len() - 2)) == hundredths(us)
        }),
        us > 0 ==> seconds_figure(-us) == "-"@ + seconds_figure(us),
        hundredths(10_000 * us) == us,
        whole_millis(1000 * us) == us,
{
    reveal_strlit(".");
    reveal_strlit("");
    let n = hundredths(us);
    assert(n >= 0);
    let whole = decimal((n / 100) as nat);
    let part = zero_padded((n % 100) as nat, 2);
    law_decimals_read_back((n / 100) as nat);
    law_padding_keeps_the_number((n % 100) as nat, 2);
    assert(part.len() == 2) by {
        reveal_with_fuel(decimal, 3);
    }
    let f = seconds_figure(us);
    assert(f =~= whole + "."@ + part);
    assert(f.take(f.len() - 3) =~= whole);
    assert(f.skip(f.len() - 2) =~= part);
    if us > 0 {
        assert(hundredths(-us) == hundredths(us));
        assert(seconds_figure(-us) =~= "-"@ + seconds_figure(us));
    }
}

/// Law: the text of an event is the one it carries.
pub proof fn law_the_text_of_an_event_is_its_own(ev: TurnEvent)
    ensures
        ev matches TurnEvent::StreamFragment { text, .. } ==> text_of(ev) == Some(text@),
        ev matches TurnEvent::BatchSentence { text, .. } ==> text_of(ev) == Some(text@),
        ev matches TurnEvent::BatchParagraph { text, .. } ==> text_of(ev) == Some(text@),
        ev matches TurnEvent::SentenceCalibration { calibrated, .. } ==> text_of(ev) == Some(
            calibrated@,
        ),
        ev matches TurnEvent::ParagraphCalibration { calibrated, .. } ==> text_of(ev) == Some(
            calibrated@,
        ),
        ev is ParagraphClosed ==> text_of(ev) is None,
{
}

/// Law: a half goes to the even neighbour where it is exact in binary, as half a millisecond and a
/// multiple of an eighth of a second are; any other half hundredth goes away from zero.
pub proof fn law_halves_go_to_the_even_neighbour(us: int)
    requires
        us >= 0,
    ensures
        us % 1000 == 500 ==> whole_millis(us) % 2 == 0,
        us % 125_000 == 0 && us % 10_000 == 5_000 ==> hundredths(us) % 2 == 0,
        us % 125_000 != 0 && us % 10_000 == 5_000 ==> 10_000 * hundredths(us) == us + 5_000,
        hundredths(-us) == hundredths(us),
{
}

} // verus!
