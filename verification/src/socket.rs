//! The messages that other processes send to the daemon's socket: what each
//! of them means.
use crate::number::{
    decimal, is_digit, lemma_decimal_digits, parse_u32, parse_u64, parsed, parsed_inverts_decimal,
};
use crate::text::{
    begins_with, chars, is_white, is_word, lemma_first_word, lemma_leading_gap, lowered, rows,
    same_caseless, same_chars, starts, texts, to_lower, trim, trimmed, words, words_of,
};
use vstd::prelude::*;
use vstd::slice::slice_subrange;

verus! {

/// How severe a message or a condition is. The order is that of the
/// declaration: a higher level can replace a lower one on the display, never
/// the reverse.
#[derive(Debug, Clone, Copy, PartialEq, Eq, PartialOrd, Ord, Structural)]
pub enum Level {
    Info,
    Warn,
    Error,
    Critical,
}

/// The level that a word names; an unknown word names the lowest.
pub open spec fn level_of(word: Seq<char>) -> Level {
    let w = lowered(word);
    if w == "warn"@ || w == "warning"@ {
        Level::Warn
    } else if w == "error"@ {
        Level::Error
    } else if w == "critical"@ {
        Level::Critical
    } else {
        Level::Info
    }
}

/// The more severe of two levels.
pub open spec fn worse_of(a: Level, b: Level) -> Level {
    if a.rank() < b.rank() {
        b
    } else {
        a
    }
}

/// The most severe of some levels, `Info` where there is none.
pub open spec fn worst_of(levels: Seq<Level>) -> Level
    decreases levels.len(),
{
    if levels.len() == 0 {
        Level::Info
    } else {
        worse_of(worst_of(levels.drop_last()), levels.last())
    }
}

/// The worst of some levels is one of them, or `Info` where there is none, and
/// no level among them is more severe.
pub proof fn worst_of_is_greatest(levels: Seq<Level>)
    ensures
        forall|i: int|
            0 <= i < levels.len() ==> (#[trigger] levels[i]).rank() <= worst_of(levels).rank(),
        worst_of(levels) == Level::Info || levels.contains(worst_of(levels)),
    decreases levels.len(),
{
    if levels.len() > 0 {
        let rest = levels.drop_last();
        worst_of_is_greatest(rest);
        assert forall|i: int| 0 <= i < levels.len() implies (#[trigger] levels[i]).rank()
            <= worst_of(levels).rank() by {
            if i < rest.len() {
                assert(levels[i] == rest[i]);
            }
        }
        if worst_of(levels) == worst_of(rest) && rest.contains(worst_of(rest)) {
            let i = choose|i: int| 0 <= i < rest.len() && rest[i] == worst_of(rest);
            assert(levels[i] == worst_of(levels));
        } else if worst_of(levels) == levels.last() {
            assert(levels[levels.len() - 1] == worst_of(levels));
        }
    }
}

impl Level {
    /// The position of a level in the order of severity.
    pub open spec fn rank(self) -> int {
        match self {
            Level::Info => 0,
            Level::Warn => 1,
            Level::Error => 2,
            Level::Critical => 3,
        }
    }

    /// Whether messages of this level persist and wake the panel.
    pub open spec fn visible(self) -> bool {
        self.rank() >= Level::Error.rank()
    }

    /// The name of a level.
    pub open spec fn name(self) -> Seq<char> {
        match self {
            Level::Info => "Info"@,
            Level::Warn => "Warn"@,
            Level::Error => "Error"@,
            Level::Critical => "Critical"@,
        }
    }

    /// Reads the name of a level, in any case; an unknown name is `Info`.
    pub fn parse(s: &str) -> (r: Level)
        ensures
            r == level_of(s@),
    {
        let v = chars(s);
        let w = to_lower(v.as_slice());
        if same_chars(w.as_slice(), chars("warn").as_slice()) || same_chars(
            w.as_slice(),
            chars("warning").as_slice(),
        ) {
            Level::Warn
        } else if same_chars(w.as_slice(), chars("error").as_slice()) {
            Level::Error
        } else if same_chars(w.as_slice(), chars("critical").as_slice()) {
            Level::Critical
        } else {
            Level::Info
        }
    }

    /// The position of a level in the order of severity.
    pub fn severity(self) -> (r: u8)
        ensures
            r == self.rank(),
    {
        match self {
            Level::Info => 0,
            Level::Warn => 1,
            Level::Error => 2,
            Level::Critical => 3,
        }
    }

    /// Error and critical are meant to always be seen: they persist on the
    /// display instead of expiring, and they wake the panel from sleep.
    pub fn always_visible(self) -> (r: bool)
        ensures
            r == self.visible(),
    {
        self.severity() >= Level::Error.severity()
    }

    /// The more severe of two levels.
    pub fn worse(self, other: Level) -> (r: Level)
        ensures
            r == worse_of(self, other),
    {
        if self.severity() < other.severity() {
            other
        } else {
            self
        }
    }

    /// The name of a level.
    pub fn label(self) -> (r: &'static str)
        ensures
            r@ == self.name(),
    {
        match self {
            Level::Info => "Info",
            Level::Warn => "Warn",
            Level::Error => "Error",
            Level::Critical => "Critical",
        }
    }
}

/// What a connection asks for.
#[derive(Debug, Clone)]
pub enum SocketCommand {
    /// Show two lines of text.
    Show {
        level: Level,
        /// Seconds after which the message goes away; zero for never.
        ttl_secs: u64,
        /// The drive bay that the message is about.
        bay: Option<u32>,
        line0: String,
        line1: String,
    },
    /// Drop the message that is showing, or only the one about a bay.
    Clear { bay: Option<u32> },
    /// Send the status report back.
    StatusRequest,
}

/// What a `SocketCommand` holds.
pub enum CommandView {
    Show { level: Level, ttl_secs: u64, bay: Option<u32>, line0: Seq<char>, line1: Seq<char> },
    Clear { bay: Option<u32> },
    StatusRequest,
}

impl View for SocketCommand {
    type V = CommandView;

    open spec fn view(&self) -> CommandView {
        match self {
            SocketCommand::Show { level, ttl_secs, bay, line0, line1 } => CommandView::Show {
                level: *level,
                ttl_secs: *ttl_secs,
                bay: *bay,
                line0: line0@,
                line1: line1@,
            },
            SocketCommand::Clear { bay } => CommandView::Clear { bay: *bay },
            SocketCommand::StatusRequest => CommandView::StatusRequest,
        }
    }
}

/// What an optional command holds.
pub open spec fn command_view(c: Option<SocketCommand>) -> Option<CommandView> {
    match c {
        Some(c) => Some(c@),
        None => None,
    }
}

/// The bay that a word of the form `bay=N` names.
pub open spec fn bay_of(word: Seq<char>) -> Option<u32> {
    if begins_with(word, "bay="@) {
        match parsed(word.skip("bay="@.len() as int), u32::MAX as int) {
            Some(n) => Some(n as u32),
            None => None,
        }
    } else {
        None
    }
}

/// The bay that the first of the words to name one names.
pub open spec fn bay_in(words: Seq<Seq<char>>) -> Option<u32>
    decreases words.len(),
{
    if words.len() == 0 {
        None
    } else if bay_of(words[0]) is Some {
        bay_of(words[0])
    } else {
        bay_in(words.drop_first())
    }
}

/// Line `i` of a message, empty where the message has no such line.
pub open spec fn line_at(lines: Seq<Seq<char>>, i: int) -> Seq<char> {
    if 0 <= i < lines.len() {
        lines[i]
    } else {
        Seq::empty()
    }
}

/// Whether two texts differ in nothing but the case of ASCII letters.
pub open spec fn caseless(a: Seq<char>, b: Seq<char>) -> bool {
    lowered(a) == lowered(b)
}

/// What a message means: a `SHOW` or `CLEAR` header with up to two lines of
/// content, or bare text, which is shown for five seconds.
pub open spec fn message_of(lines: Seq<Seq<char>>) -> Option<CommandView> {
    let words = words_of(line_at(lines, 0));
    if words.len() == 0 {
        None
    } else if caseless(words[0], "CLEAR"@) {
        Some(CommandView::Clear { bay: bay_in(words.skip(1)) })
    } else if caseless(words[0], "SHOW"@) {
        if words.len() < 3 {
            None
        } else {
            match parsed(words[2], u64::MAX as int) {
                Some(ttl) => Some(
                    CommandView::Show {
                        level: level_of(words[1]),
                        ttl_secs: ttl as u64,
                        bay: bay_in(words.skip(3)),
                        line0: line_at(lines, 1),
                        line1: line_at(lines, 2),
                    },
                ),
                None => None,
            }
        }
    } else {
        Some(
            CommandView::Show {
                level: Level::Info,
                ttl_secs: 5,
                bay: None,
                line0: line_at(lines, 0),
                line1: line_at(lines, 1),
            },
        )
    }
}

/// What the lines received on one connection ask for.
pub open spec fn request_of(lines: Seq<Seq<char>>) -> Option<CommandView> {
    if lines.len() > 0 && caseless(trimmed(lines[0]), "STATUS"@) {
        Some(CommandView::StatusRequest)
    } else {
        message_of(lines)
    }
}

fn parse_bay_word(word: &[char]) -> (r: Option<u32>)
    ensures
        r == bay_of(word@),
{
    if !starts(word, "bay=") {
        return None;
    }
    let prefix = chars("bay=");
    parse_u32(slice_subrange(word, prefix.len(), word.len()))
}

/// The bay that the words from `from` on name.
pub fn parse_bay(words: &Vec<Vec<char>>, from: usize) -> (r: Option<u32>)
    requires
        from <= words@.len(),
    ensures
        r == bay_in(rows(words@).skip(from as int)),
{
    let mut i: usize = from;
    while i < words.len()
        invariant
            from <= i <= words@.len(),
            bay_in(rows(words@).skip(from as int)) == bay_in(rows(words@).skip(i as int)),
        decreases words@.len() - i,
    {
        let ghost rest = rows(words@).skip(i as int);
        assert(rest[0] == words@[i as int]@);
        assert(rest.drop_first() == rows(words@).skip(i + 1));
        let bay = parse_bay_word(words[i].as_slice());
        if bay.is_some() {
            return bay;
        }
        i += 1;
    }
    None
}

fn line(lines: &[String], i: usize) -> (r: String)
    ensures
        r@ == line_at(texts(lines@), i as int),
{
    if i < lines.len() {
        lines[i].clone()
    } else {
        String::new()
    }
}

/// Reads one message.
pub fn parse_message(lines: &[String]) -> (r: Option<SocketCommand>)
    ensures
        command_view(r) == message_of(texts(lines@)),
{
    let first = chars(line(lines, 0).as_str());
    let words = words(first.as_slice());
    let ghost ws = rows(words@);
    if words.len() == 0 {
        return None;
    }
    assert(ws[0] == words@[0]@);
    if same_caseless(words[0].as_slice(), "CLEAR") {
        return Some(SocketCommand::Clear { bay: parse_bay(&words, 1) });
    }
    if same_caseless(words[0].as_slice(), "SHOW") {
        if words.len() < 3 {
            return None;
        }
        assert(ws[1] == words@[1]@ && ws[2] == words@[2]@);
        let level = Level::parse(crate::text::from_chars(words[1].as_slice()).as_str());
        match parse_u64(words[2].as_slice()) {
            Some(ttl_secs) => Some(
                SocketCommand::Show {
                    level,
                    ttl_secs,
                    bay: parse_bay(&words, 3),
                    line0: line(lines, 1),
                    line1: line(lines, 2),
                },
            ),
            None => None,
        }
    } else {
        Some(
            SocketCommand::Show {
                level: Level::Info,
                ttl_secs: 5,
                bay: None,
                line0: line(lines, 0),
                line1: line(lines, 1),
            },
        )
    }
}

/// Reads what one connection asks for: a status report, or what its message
/// means.
pub fn parse_request(lines: &[String]) -> (r: Option<SocketCommand>)
    ensures
        command_view(r) == request_of(texts(lines@)),
{
    if lines.len() > 0 {
        let first = chars(lines[0].as_str());
        assert(texts(lines@)[0] == lines@[0]@);
        if same_caseless(trim(first.as_slice()), "STATUS") {
            return Some(SocketCommand::StatusRequest);
        }
    }
    parse_message(lines)
}

/// A word and the words after a space.
proof fn lemma_spaced(w: Seq<char>, rest: Seq<char>)
    requires
        is_word(w),
    ensures
        words_of(w + (seq![' '] + rest)) == seq![w] + words_of(rest),
{
    lemma_first_word(w, seq![' '] + rest);
    lemma_leading_gap(' ', rest);
}

proof fn lemma_last(w: Seq<char>)
    requires
        is_word(w),
    ensures
        words_of(w) == seq![w],
{
    let none = Seq::<char>::empty();
    lemma_first_word(w, none);
    assert(w + none =~= w);
    assert(words_of(none) =~= Seq::empty());
    assert(seq![w] + Seq::<Seq<char>>::empty() =~= seq![w]);
}

proof fn lemma_decimal_is_word(n: nat)
    ensures
        is_word(decimal(n)),
{
    lemma_decimal_digits(n);
    assert forall|i: int| 0 <= i < decimal(n).len() implies !is_white(#[trigger] decimal(n)[i]) by {
        assert(is_digit(decimal(n)[i]));
    }
}

/// The header of a message that shows two lines: the word `SHOW`, a level, a
/// number of seconds, and the bay where there is one.
pub open spec fn show_header(level: Seq<char>, ttl_secs: u64, bay: Option<u32>) -> Seq<char> {
    "SHOW"@ + (seq![' '] + (level + (seq![' '] + (match bay {
        Some(b) => decimal(ttl_secs as nat) + (seq![' '] + ("bay="@ + decimal(b as nat))),
        None => decimal(ttl_secs as nat),
    }))))
}

/// What a message with a `SHOW` header means: to show its two lines, with the
/// level, the time and the bay that the header names.
pub proof fn show_is_understood(
    level: Seq<char>,
    ttl_secs: u64,
    bay: Option<u32>,
    line0: Seq<char>,
    line1: Seq<char>,
)
    requires
        is_word(level),
    ensures
        message_of(seq![show_header(level, ttl_secs, bay), line0, line1]) == Some(
            (CommandView::Show { level: level_of(level), ttl_secs, bay, line0, line1 }),
        ),
{
    reveal_strlit("SHOW");
    reveal_strlit("CLEAR");
    reveal_strlit("bay=");
    let header = show_header(level, ttl_secs, bay);
    let ttl = decimal(ttl_secs as nat);
    lemma_decimal_is_word(ttl_secs as nat);
    parsed_inverts_decimal(ttl_secs as nat, u64::MAX as int);
    assert(is_word("SHOW"@)) by {
        assert(forall|i: int| 0 <= i < 4 ==> !is_white(#[trigger] "SHOW"@[i]));
    }
    assert(lowered("SHOW"@).len() != lowered("CLEAR"@).len());
    match bay {
        Some(b) => {
            let word = "bay="@ + decimal(b as nat);
            lemma_decimal_is_word(b as nat);
            parsed_inverts_decimal(b as nat, u32::MAX as int);
            assert(is_word(word)) by {
                assert forall|i: int| 0 <= i < word.len() implies !is_white(#[trigger] word[i]) by {
                    if i >= 4 {
                        assert(word[i] == decimal(b as nat)[i - 4]);
                    }
                }
            }
            let tail = ttl + (seq![' '] + word);
            lemma_last(word);
            lemma_spaced(ttl, word);
            lemma_spaced(level, tail);
            lemma_spaced("SHOW"@, level + (seq![' '] + tail));
            let words = words_of(header);
            assert(words =~= seq!["SHOW"@, level, ttl, word]);
            assert(words.skip(3) =~= seq![word]);
            assert(word.subrange(0, 4) =~= "bay="@);
            assert(word.skip(4) =~= decimal(b as nat));
        },
        None => {
            lemma_last(ttl);
            lemma_spaced(level, ttl);
            lemma_spaced("SHOW"@, level + (seq![' '] + ttl));
            let words = words_of(header);
            assert(words =~= seq!["SHOW"@, level, ttl]);
            assert(words.skip(3) =~= Seq::empty());
        },
    }
}

/// A message whose first word is neither `SHOW` nor `CLEAR`, in any case, is
/// shown for five seconds as it stands.
pub proof fn bare_text_is_shown(lines: Seq<Seq<char>>)
    requires
        lines.len() > 0,
        words_of(lines[0]).len() > 0,
        !caseless(words_of(lines[0])[0], "SHOW"@),
        !caseless(words_of(lines[0])[0], "CLEAR"@),
    ensures
        message_of(lines) == Some(
            (CommandView::Show {
                level: Level::Info,
                ttl_secs: 5,
                bay: None,
                line0: lines[0],
                line1: line_at(lines, 1),
            }),
        ),
{
}

/// Which level a word names, in any case.
pub proof fn levels_by_name(word: Seq<char>)
    ensures
        lowered(word) == "warn"@ || lowered(word) == "warning"@ ==> level_of(word) == Level::Warn,
        lowered(word) == "error"@ ==> level_of(word) == Level::Error,
        lowered(word) == "critical"@ ==> level_of(word) == Level::Critical,
        lowered(word) != "warn"@ && lowered(word) != "warning"@ && lowered(word) != "error"@
            && lowered(word) != "critical"@ ==> level_of(word) == Level::Info,
{
    reveal_strlit("warn");
    reveal_strlit("warning");
    reveal_strlit("error");
    reveal_strlit("critical");
    assert("error"@.len() != "warn"@.len() && "critical"@.len() != "warning"@.len());
}

/// The worse of two levels is one of them, and as severe as both.
pub proof fn worse_is_worse(a: Level, b: Level)
    ensures
        worse_of(a, b) == a || worse_of(a, b) == b,
        a == Level::Critical || b == Level::Critical ==> worse_of(a, b) == Level::Critical,
        a == Level::Error || b == Level::Error ==> worse_of(a, b) == Level::Error || worse_of(a, b)
            == Level::Critical,
        a != Level::Info || b != Level::Info ==> worse_of(a, b) != Level::Info,
{
}

/// The bay that some words name: that of the first word of the form `bay=N`.
pub proof fn first_bay_is_meant(words: Seq<Seq<char>>, i: int, bay: u32)
    requires
        0 <= i < words.len(),
        words[i] == "bay="@ + decimal(bay as nat),
        forall|j: int| 0 <= j < i ==> bay_of(#[trigger] words[j]) is None,
    ensures
        bay_in(words) == Some(bay),
    decreases i,
{
    if i > 0 {
        assert(bay_of(words[0]) is None);
        let rest = words.drop_first();
        assert forall|j: int| 0 <= j < i - 1 implies bay_of(#[trigger] rest[j]) is None by {
            assert(rest[j] == words[j + 1]);
        }
        first_bay_is_meant(rest, i - 1, bay);
    } else {
        let word = words[0];
        parsed_inverts_decimal(bay as nat, u32::MAX as int);
        assert(word.subrange(0, "bay="@.len() as int) =~= "bay="@);
        assert(word.skip("bay="@.len() as int) =~= decimal(bay as nat));
    }
}

/// What a message with a `CLEAR` header means: to drop the message, or only the one
/// about the bay that the header names.
pub proof fn clear_is_understood(bay: u32, rest: Seq<Seq<char>>)
    ensures
        message_of(seq!["CLEAR"@] + rest) == Some((CommandView::Clear { bay: None })),
        message_of(seq!["CLEAR"@ + (seq![' '] + ("bay="@ + decimal(bay as nat)))] + rest) == Some(
            (CommandView::Clear { bay: Some(bay) }),
        ),
{
    reveal_strlit("CLEAR");
    reveal_strlit("bay=");
    assert(is_word("CLEAR"@)) by {
        assert(forall|i: int| 0 <= i < 5 ==> !is_white(#[trigger] "CLEAR"@[i]));
    }
    let word = "bay="@ + decimal(bay as nat);
    lemma_decimal_is_word(bay as nat);
    assert(is_word(word)) by {
        assert forall|i: int| 0 <= i < word.len() implies !is_white(#[trigger] word[i]) by {
            if i >= 4 {
                assert(word[i] == decimal(bay as nat)[i - 4]);
            }
        }
    }
    lemma_last("CLEAR"@);
    lemma_last(word);
    lemma_spaced("CLEAR"@, word);
    assert(seq!["CLEAR"@].skip(1) =~= Seq::empty());
    let words = words_of("CLEAR"@ + (seq![' '] + word));
    assert(words =~= seq!["CLEAR"@, word]);
    assert(words.skip(1) =~= seq![word]);
    first_bay_is_meant(seq![word], 0, bay);
    assert((seq!["CLEAR"@] + rest)[0] == "CLEAR"@);
    assert((seq!["CLEAR"@ + (seq![' '] + word)] + rest)[0] == "CLEAR"@ + (seq![' '] + word));
}

/// A connection whose first line is `STATUS`, in any case and with any white space
/// around it, asks for the report, and no other does.
pub proof fn status_is_understood(lines: Seq<Seq<char>>)
    ensures
        lines.len() > 0 && lowered(trimmed(lines[0])) == lowered("STATUS"@) ==> request_of(lines)
            == Some(CommandView::StatusRequest),
        lines.len() > 0 && lowered(trimmed(lines[0])) != lowered("STATUS"@) ==> request_of(lines)
            == message_of(lines),
        message_of(lines) != Some(CommandView::StatusRequest),
{
}

/// What cannot be understood is passed over: a message without a word, and a `SHOW`
/// without a level and a number of seconds.
pub proof fn nonsense_is_passed_over(lines: Seq<Seq<char>>)
    requires
        lines.len() > 0,
    ensures
        ({
            let words = words_of(lines[0]);
            &&& words.len() == 0 ==> message_of(lines) is None
            &&& words.len() > 0 && lowered(words[0]) == lowered("SHOW"@) && words.len() < 3
                ==> message_of(lines) is None
            &&& words.len() >= 3 && lowered(words[0]) == lowered("SHOW"@) && parsed(
                words[2],
                u64::MAX as int,
            ) is None ==> message_of(lines) is None
        }),
{
    reveal_strlit("SHOW");
    reveal_strlit("CLEAR");
    assert(lowered("SHOW"@).len() != lowered("CLEAR"@).len());
}

/// The levels in order, and which of them always show: errors and critical ones.
pub proof fn levels_in_figures(level: Level)
    ensures
        level.visible() <==> level == Level::Error || level == Level::Critical,
        Level::Info.rank() == 0 && Level::Warn.rank() == 1 && Level::Error.rank() == 2
            && Level::Critical.rank() == 3,
{
}

} // verus!
