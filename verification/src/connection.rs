//! What to do with a message of a client: the words of the message, the
//! command that they make, and the reply to send.

use vstd::prelude::*;
use vstd::string::*;
use crate::commands::get::{get, get_answer, GetView};
use crate::commands::set::{set_admits, set_checked, set_post, strs};
use crate::invariants::{is_latest, references_wired};
use crate::spreadsheet::{stamps_grow, SheetView, Spreadsheet};
use crate::utils::str_equal;
use crate::values::{Reply, ReplyView};

verus! {

/// A white-space character.
pub open spec fn is_space(c: char) -> bool {
    let n = c as u32;
    ||| 0x09 <= n <= 0x0D
    ||| n == 0x20
    ||| n == 0x85
    ||| n == 0xA0
    ||| n == 0x1680
    ||| 0x2000 <= n <= 0x200A
    ||| n == 0x2028
    ||| n == 0x2029
    ||| n == 0x202F
    ||| n == 0x205F
    ||| n == 0x3000
}

/// The words that were closed by white space while `text` was read from
/// the left, and the word that is still open at its end.
pub open spec fn scanned(text: Seq<char>) -> (Seq<Seq<char>>, Seq<char>)
    decreases text.len(),
{
    if text.len() == 0 {
        (Seq::empty(), Seq::empty())
    } else {
        let (closed, open) = scanned(text.drop_last());
        if is_space(text.last()) {
            if open.len() > 0 {
                (closed.push(open), Seq::empty())
            } else {
                (closed, open)
            }
        } else {
            (closed, open.push(text.last()))
        }
    }
}

/// The words of `text`: its longest stretches without white space, from
/// the left.
pub open spec fn words(text: Seq<char>) -> Seq<Seq<char>> {
    let (closed, open) = scanned(text);
    if open.len() > 0 {
        closed.push(open)
    } else {
        closed
    }
}

/// Whether `c` is a white-space character.
pub fn is_white_space(c: char) -> (space: bool)
    ensures
        space == is_space(c),
{
    let n: u32 = c as u32;
    (0x09 <= n && n <= 0x0D) || n == 0x20 || n == 0x85 || n == 0xA0 || n == 0x1680 || (0x2000
        <= n && n <= 0x200A) || n == 0x2028 || n == 0x2029 || n == 0x202F || n == 0x205F || n
        == 0x3000
}

/// The words of a message.
pub fn split_words(message: &str) -> (list: Vec<&str>)
    ensures
        strs(list@) == words(message@),
{
    let n: usize = message.unicode_len();
    let mut list: Vec<&str> = Vec::new();
    let mut start: usize = 0;
    let mut i: usize = 0;
    assert(message@.subrange(0, 0) =~= Seq::<char>::empty());
    assert(strs(list@) =~= Seq::<Seq<char>>::empty());
    assert(message@.subrange(0, 0) =~= scanned(message@.subrange(0, 0)).1);
    while i < n
        invariant
            n == message@.len(),
            0 <= start <= i <= n,
            scanned(message@.subrange(0, i as int)) == (
                strs(list@),
                message@.subrange(start as int, i as int),
            ),
        decreases n - i,
    {
        let c: char = message.get_char(i);
        proof {
            assert(message@.subrange(0, i + 1).drop_last() =~= message@.subrange(0, i as int));
            assert(message@.subrange(0, i + 1).last() == c);
        }
        if is_white_space(c) {
            if i > start {
                let ghost before = strs(list@);
                let word: &str = message.substring_char(start, i);
                list.push(word);
                assert(strs(list@) =~= before.push(word@));
            }
            start = i + 1;
            assert(message@.subrange(start as int, i + 1) =~= Seq::<char>::empty());
        } else {
            assert(message@.subrange(start as int, i + 1) =~= message@.subrange(
                start as int,
                i as int,
            ).push(c));
        }
        i = i + 1;
    }
    assert(message@.subrange(0, n as int) =~= message@);
    if n > start {
        let ghost before = strs(list@);
        let word: &str = message.substring_char(start, n);
        list.push(word);
        assert(strs(list@) =~= before.push(word@));
    }
    list
}

/// What is to be done after a message was handled.
#[derive(Debug, Clone, PartialEq, Eq)]
pub enum Action {
    /// Nothing is sent.
    Silent,
    /// The reply is sent to the client.
    Send(Reply),
    /// The message asked to set an expression that cannot be expanded;
    /// nothing was done.
    Refuse,
}

/// What an `Action` stands for.
pub enum ActionView {
    Silent,
    Send(ReplyView),
    Refuse,
}

impl View for Action {
    type V = ActionView;

    open spec fn view(&self) -> ActionView {
        match self {
            Action::Silent => ActionView::Silent,
            Action::Send(reply) => ActionView::Send(reply@),
            Action::Refuse => ActionView::Refuse,
        }
    }
}

/// The reply to a `get` command.
pub open spec fn get_reply(answer: GetView) -> ReplyView {
    match answer {
        GetView::Value(cell, value) => ReplyView::Value(cell, value),
        GetView::Error(_, reply) => reply,
    }
}

/// What a message does and what is to be done after it. A message without
/// words does nothing. A `get` is answered and changes nothing. A `set`
/// whose expression cannot be expanded is refused and changes nothing; any
/// other `set` does what `set_post` says, and is answered only where it is
/// rejected. Any other command is answered with an error that names it.
pub open spec fn handled(
    before: SheetView,
    message: Seq<char>,
    timestamp: u64,
    action: ActionView,
    after: SheetView,
) -> bool {
    let args = words(message);
    if args.len() == 0 {
        action == ActionView::Silent && after == before
    } else if args[0] == "get"@ {
        action == ActionView::Send(get_reply(get_answer(before.cells, args))) && after == before
    } else if args[0] == "set"@ {
        if !set_admits(args) {
            action == ActionView::Refuse && after == before
        } else {
            exists|outcome: Result<(), Reply>|
                {
                    &&& #[trigger] set_post(before, args, timestamp, outcome, after)
                    &&& action == match outcome {
                        Ok(_) => ActionView::Silent,
                        Err(reply) => ActionView::Send(reply@),
                    }
                }
        }
    } else {
        action == ActionView::Send(ReplyView::Error("Invalid command: "@ + args[0])) && after
            == before
    }
}

/// Handles one message of a client that arrived at the time `timestamp`.
/// No cell's time stamp goes back; and where the time is not earlier than
/// any stamp in the store, every expression that was wired stays wired.
pub fn handle_message(spreadsheet: &mut Spreadsheet, message: &str, timestamp: u64) -> (action:
    Action)
    requires
        old(spreadsheet).wf(),
    ensures
        final(spreadsheet).wf(),
        stamps_grow(old(spreadsheet)@.cells, final(spreadsheet)@.cells),
        handled(old(spreadsheet)@, message@, timestamp, action@, final(spreadsheet)@),
        references_wired(old(spreadsheet)@) && is_latest(old(spreadsheet)@.cells, timestamp)
            ==> references_wired(final(spreadsheet)@),
{
    let args: Vec<&str> = split_words(message);
    if args.len() == 0 {
        return Action::Silent;
    }
    let command: &str = args[0];
    if str_equal(command, "get") {
        match get(spreadsheet, args) {
            Ok(found) => Action::Send(Reply::Value(found.0, found.1)),
            Err(refused) => Action::Send(refused.1),
        }
    } else if str_equal(command, "set") {
        match set_checked(spreadsheet, args, timestamp) {
            None => Action::Refuse,
            Some(outcome) => {
                assert(set_post(
                    old(spreadsheet)@,
                    words(message@),
                    timestamp,
                    outcome,
                    spreadsheet@,
                ));
                match outcome {
                    Ok(_) => Action::Silent,
                    Err(reply) => Action::Send(reply),
                }
            },
        }
    } else {
        let mut text: String = "Invalid command: ".to_owned();
        text.append(command);
        Action::Send(Reply::Error(text))
    }
}

} // verus!
