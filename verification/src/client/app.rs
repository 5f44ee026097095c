//! From the menu into a game and back: what each screen leads to.

use vstd::prelude::*;
use vstd::string::*;

use crate::client::net::WsStatus;
use crate::text::{trim, trimmed};

verus! {

/// A message that came before the game began.
#[derive(Debug)]
pub enum Reply {
    Welcome,
    Reject(String),
    Other,
}

/// The reply decides.
pub open spec fn decides(r: Reply) -> bool {
    !(r is Other)
}

/// The first reply that decides.
pub open spec fn first_decision(replies: Seq<Reply>, k: int) -> bool {
    &&& 0 <= k < replies.len()
    &&& decides(replies[k])
    &&& forall|i: int| 0 <= i < k ==> !decides(#[trigger] replies[i])
}

pub open spec fn undecided(replies: Seq<Reply>) -> bool {
    forall|i: int| 0 <= i < replies.len() ==> !decides(#[trigger] replies[i])
}

/// Where connecting leads.
#[derive(Debug)]
pub enum Connecting {
    /// Nowhere yet.
    Waits,
    /// Into the game; the replies from this index on are the game's.
    Enters { rest: usize },
    /// Back, with a reason.
    Fails(String),
}

/// Whether the greeting is sent in this frame: once, as soon as the
/// connection is open.
pub fn greets(status: WsStatus, greeted: bool) -> (b: bool)
    ensures
        b == (status == WsStatus::Open && !greeted),
        b <==> !greeted && status is Open,
{
    status == WsStatus::Open && !greeted
}

/// Decides on a frame of connecting. What the server said comes first, even
/// where it closed the connection right after; then a closed connection, then
/// the time.
pub fn connecting_frame(status: WsStatus, replies: Vec<Reply>, timed_out: bool) -> (c: Connecting)
    ensures
        if status != WsStatus::Connecting && !undecided(replies@) {
            exists|k: int|
                {
                    &&& #[trigger] first_decision(replies@, k)
                    &&& match replies@[k] {
                        Reply::Welcome => c == (Connecting::Enters { rest: (k + 1) as usize }),
                        Reply::Reject(why) => c == Connecting::Fails(why),
                        Reply::Other => false,
                    }
                }
        } else if status == WsStatus::Closed {
            c matches Connecting::Fails(why) && why@ == "could not reach the server"@
        } else if timed_out {
            c matches Connecting::Fails(why) && why@ == "timed out waiting for the server"@
        } else {
            c is Waits
        },
{
    if status != WsStatus::Connecting {
        let ghost all = replies@;
        let len: usize = replies.len();
        let mut n: usize = 0;
        for reply in it: replies
            invariant
                it.seq() == all,
                n == it.index(),
                all == replies@,
                status != WsStatus::Connecting,
                n <= all.len(),
                all.len() == len,
                forall|i: int| 0 <= i < it.index() ==> !decides(#[trigger] all[i]),
        {
            let ghost k = it.index() as int;
            assert(reply == all[k]);
            match reply {
                Reply::Welcome => {
                    assert(first_decision(all, k));
                    assert(decides(all[k]));
                    return Connecting::Enters { rest: n + 1 };
                },
                Reply::Reject(why) => {
                    assert(first_decision(all, k));
                    assert(decides(all[k]));
                    return Connecting::Fails(why);
                },
                Reply::Other => {},
            }
            n = n + 1;
        }
    }
    if status == WsStatus::Closed {
        return Connecting::Fails(String::from_str("could not reach the server"));
    }
    if timed_out {
        return Connecting::Fails(String::from_str("timed out waiting for the server"));
    }
    Connecting::Waits
}

/// The name to join with from the menu: on a click or enter, unless it is
/// blank.
pub fn menu_joins(name: &str, clicked: bool, enter: bool) -> (joins: Option<String>)
    ensures
        match joins {
            Some(n) => (clicked || enter) && n@ == trim(name@) && n@.len() > 0,
            None => !(clicked || enter) || trim(name@).len() == 0,
        },
        joins is Some <==> trim(name@).len() > 0 && (enter || clicked),
{
    if clicked || enter {
        trimmed(name)
    } else {
        None
    }
}

/// The screens.
#[derive(Debug, Clone, Copy, PartialEq, Eq, Structural)]
pub enum Screen {
    Menu,
    Connecting,
    Playing,
    Disconnected,
}

/// What happened on a screen in a frame.
#[derive(Debug, Clone, Copy, PartialEq, Eq, Structural)]
pub enum AppEvent {
    Nothing,
    /// The player wants into the game, and a connection could be set up.
    SocketReady,
    /// It could not, or was refused, or is lost.
    Lost,
    Welcomed,
    /// The player wants the menu.
    BackToMenu,
}

/// The next screen. A wish to join that cannot even be tried ends at once.
pub open spec fn spec_next_screen(s: Screen, e: AppEvent) -> Screen {
    match (s, e) {
        (Screen::Menu, AppEvent::SocketReady) => Screen::Connecting,
        (Screen::Menu, AppEvent::Lost) => Screen::Disconnected,
        (Screen::Connecting, AppEvent::Welcomed) => Screen::Playing,
        (Screen::Connecting, AppEvent::Lost) => Screen::Disconnected,
        (Screen::Playing, AppEvent::Lost) => Screen::Disconnected,
        (Screen::Disconnected, AppEvent::SocketReady) => Screen::Connecting,
        (Screen::Disconnected, AppEvent::BackToMenu) => Screen::Menu,
        _ => s,
    }
}

pub fn next_screen(s: Screen, e: AppEvent) -> (n: Screen)
    ensures
        n == spec_next_screen(s, e),
{
    match (s, e) {
        (Screen::Menu, AppEvent::SocketReady) => Screen::Connecting,
        (Screen::Menu, AppEvent::Lost) => Screen::Disconnected,
        (Screen::Connecting, AppEvent::Welcomed) => Screen::Playing,
        (Screen::Connecting, AppEvent::Lost) => Screen::Disconnected,
        (Screen::Playing, AppEvent::Lost) => Screen::Disconnected,
        (Screen::Disconnected, AppEvent::SocketReady) => Screen::Connecting,
        (Screen::Disconnected, AppEvent::BackToMenu) => Screen::Menu,
        _ => s,
    }
}

/// Nobody plays without having been welcomed, and a game that is lost shows
/// why.
pub proof fn law_playing_takes_a_welcome(s: Screen, e: AppEvent)
    ensures
        spec_next_screen(s, e) == Screen::Playing && s != Screen::Playing ==> s
            == Screen::Connecting && e == AppEvent::Welcomed,
        s == Screen::Playing && spec_next_screen(s, e) != Screen::Playing ==> spec_next_screen(
            s,
            e,
        ) == Screen::Disconnected,
{
}

/// Keys for walking.
#[derive(Debug, Clone, Copy, PartialEq, Eq, Structural)]
pub struct PlayerInput {
    pub left: bool,
    pub right: bool,
    pub jump: bool,
    pub down: bool,
}

/// While the chat is open, keys do not move the player.
pub fn movement_input(chat_open: bool, keys: PlayerInput) -> (i: PlayerInput)
    ensures
        i == (if chat_open {
            PlayerInput { left: false, right: false, jump: false, down: false }
        } else {
            keys
        }),
        chat_open ==> !i.left && !i.right && !i.jump && !i.down,
        !chat_open ==> i.left == keys.left && i.right == keys.right && i.jump == keys.jump
            && i.down == keys.down,
{
    if chat_open {
        PlayerInput { left: false, right: false, jump: false, down: false }
    } else {
        keys
    }
}

/// Where the own player looks: where they walk, and as before where they walk
/// both ways or not at all.
pub fn facing_after(facing: i8, input: PlayerInput) -> (f: i8)
    ensures
        f == (if input.left == input.right {
            facing
        } else if input.right {
            1
        } else {
            (-1) as i8
        }),
        input.right && !input.left ==> f > 0,
        input.left && !input.right ==> f < 0,
        input.left && input.right ==> f == facing,
        !input.left && !input.right ==> f == facing,
{
    if input.left != input.right {
        if input.right {
            1
        } else {
            -1
        }
    } else {
        facing
    }
}

/// A screen changes only as the connection does: a socket leads from the menu or a lost game to
/// connecting, a welcome from there into the game, a loss out of whatever was on, and the menu is
/// reached from a lost game alone.
pub proof fn law_screens_follow_the_connection(s: Screen)
    ensures
        spec_next_screen(s, AppEvent::Nothing) == s,
        spec_next_screen(s, AppEvent::Lost) is Disconnected,
        spec_next_screen(s, AppEvent::Welcomed) is Playing <==> s is Connecting || s is Playing,
        s is Menu || s is Disconnected ==> spec_next_screen(s, AppEvent::SocketReady)
            is Connecting && spec_next_screen(s, AppEvent::Welcomed) == s,
        s is Connecting || s is Playing ==> spec_next_screen(s, AppEvent::SocketReady) == s
            && spec_next_screen(s, AppEvent::BackToMenu) == s,
        s is Menu || s is Disconnected ==> spec_next_screen(s, AppEvent::BackToMenu) is Menu,
{
}

/// A welcome and a refusal decide; everything else is passed over.
pub proof fn law_two_replies_decide(replies: Seq<Reply>, k: int)
    requires
        0 <= k < replies.len(),
    ensures
        decides(replies[k]) <==> replies[k] is Welcome || replies[k] is Reject,
        first_decision(replies, k) ==> forall|i: int|
            0 <= i < k ==> #[trigger] replies[i] is Other,
        undecided(replies) ==> replies[k] is Other,
        first_decision(replies, k) ==> !(replies[k] is Other),
{
}

} // verus!
