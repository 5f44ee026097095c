//! The connection to the server as the client sees it.

use vstd::prelude::*;

verus! {

/// State of a connection.
#[derive(Debug, Clone, Copy, PartialEq, Eq, Structural)]
pub enum WsStatus {
    Connecting,
    Open,
    /// Closed or broken. There is no way back from here: a new connection
    /// takes a new client.
    Closed,
}

/// What the socket's status number means.
pub open spec fn status_of(code: i32) -> WsStatus {
    if code == 0 {
        WsStatus::Connecting
    } else if code == 1 {
        WsStatus::Open
    } else {
        WsStatus::Closed
    }
}

/// Where the page says that the server is.
#[derive(Debug)]
pub enum PageUrl {
    /// The page gives no address.
    Missing,
    /// The address is no text.
    Garbled,
    Url(String),
}

/// Why no connection was opened.
#[derive(Debug, Clone, Copy, PartialEq, Eq, Structural)]
pub enum ConnectError {
    NoUrl,
    BadUrl,
}

impl ConnectError {
    pub open spec fn spec_text(self) -> Seq<char> {
        match self {
            ConnectError::NoUrl =>
                "could not derive the server URL from the page (quad_ws.js missing?)"@,
            ConnectError::BadUrl => "server URL is not valid UTF-8"@,
        }
    }

    pub fn text(self) -> (s: &'static str)
        ensures
            s@ == self.spec_text(),
    {
        match self {
            ConnectError::NoUrl =>
                "could not derive the server URL from the page (quad_ws.js missing?)",
            ConnectError::BadUrl => "server URL is not valid UTF-8",
        }
    }
}

/// One connection to the server.
#[derive(Debug)]
pub struct WsClient {
    /// Status number that the socket gave last.
    pub code: i32,
    /// Frames that came in and were no message.
    pub bad_frames: u32,
}

/// The messages among decoded frames, in order.
pub open spec fn readable<M>(frames: Seq<Option<M>>) -> Seq<M>
    decreases frames.len(),
{
    if frames.len() == 0 {
        seq![]
    } else {
        match frames.last() {
            Some(m) => readable(frames.drop_last()).push(m),
            None => readable(frames.drop_last()),
        }
    }
}

impl WsClient {
    pub open spec fn spec_status(&self) -> WsStatus {
        status_of(self.code)
    }

    /// A client for the address that the page gives. A fresh connection is
    /// not open yet.
    pub fn connect_to_page_server(page: PageUrl) -> (r: Result<(WsClient, String), ConnectError>)
        ensures
            match page {
                PageUrl::Missing => r == Err::<(WsClient, String), ConnectError>(
                    ConnectError::NoUrl,
                ),
                PageUrl::Garbled => r == Err::<(WsClient, String), ConnectError>(
                    ConnectError::BadUrl,
                ),
                PageUrl::Url(url) => r == Ok::<(WsClient, String), ConnectError>(
                    (WsClient { code: 0, bad_frames: 0 }, url),
                ),
            },
    {
        match page {
            PageUrl::Missing => Err(ConnectError::NoUrl),
            PageUrl::Garbled => Err(ConnectError::BadUrl),
            PageUrl::Url(url) => Ok((WsClient { code: 0, bad_frames: 0 }, url)),
        }
    }

    /// Takes over what the socket says of itself.
    pub fn poll(&mut self, code: i32)
        ensures
            *final(self) == (WsClient { code, ..*old(self) }),
    {
        self.code = code;
    }

    pub fn status(&self) -> (s: WsStatus)
        ensures
            s == self.spec_status(),
    {
        if self.code == 0 {
            WsStatus::Connecting
        } else if self.code == 1 {
            WsStatus::Open
        } else {
            WsStatus::Closed
        }
    }

    pub fn is_open(&self) -> (b: bool)
        ensures
            b == (self.spec_status() == WsStatus::Open),
    {
        self.status() == WsStatus::Open
    }

    pub fn is_closed(&self) -> (b: bool)
        ensures
            b == (self.spec_status() == WsStatus::Closed),
    {
        self.status() == WsStatus::Closed
    }

    /// What goes out for an encoded message: nothing, unless the connection
    /// is open.
    pub fn send(&self, bytes: Vec<u8>) -> (out: Option<Vec<u8>>)
        ensures
            out == (if self.spec_status() == WsStatus::Open {
                Some(bytes)
            } else {
                None
            }),
    {
        if !self.is_open() {
            return None;
        }
        Some(bytes)
    }

    /// Takes the frames that came in, decoded where they could be, and returns
    /// the messages. The others are counted and skipped.
    pub fn drain<M>(&mut self, frames: Vec<Option<M>>) -> (out: Vec<M>)
        ensures
            out@ == readable(frames@),
            final(self).code == old(self).code,
            final(self).bad_frames == (old(self).bad_frames + (frames.len() - out.len()))
                % 0x1_0000_0000,
    {
        let mut out: Vec<M> = Vec::new();
        let ghost all = frames@;
        for frame in it: frames
            invariant
                it.seq() == all,
                out@ == readable(all.take(it.index() as int)),
                self.code == old(self).code,
                out.len() <= it.index(),
                self.bad_frames == (old(self).bad_frames + (it.index() - out.len()))
                    % 0x1_0000_0000,
        {
            proof {
                let k = it.index() as int;
                assert(all.take(k + 1).drop_last() =~= all.take(k));
                assert(all.take(k + 1).last() == all[k]);
            }
            match frame {
                Some(m) => out.push(m),
                None => self.bad_frames = self.bad_frames.wrapping_add(1),
            }
        }
        assert(all.take(all.len() as int) =~= all);
        out
    }
}

/// A socket is connecting at first, open while its code is one, and closed at any other code.
pub proof fn law_codes_have_their_meaning(code: i32)
    ensures
        status_of(code) is Connecting <==> code == 0,
        status_of(code) is Open <==> code == 1,
        status_of(code) is Closed <==> code < 0 || code > 1,
{
}

/// The frames that can be read are handed on in their order, and no other.
pub proof fn law_readable_frames_are_kept<M>(frames: Seq<Option<M>>)
    ensures
        readable(frames) == frames.filter(|f: Option<M>| f is Some).map_values(
            |f: Option<M>| f->Some_0,
        ),
    decreases frames.len(),
{
    reveal(Seq::filter);
    let p = |f: Option<M>| f is Some;
    let v = |f: Option<M>| f->Some_0;
    if frames.len() > 0 {
        law_readable_frames_are_kept(frames.drop_last());
        let before = frames.drop_last().filter(p);
        if frames.last() is Some {
            assert(frames.filter(p) =~= before.push(frames.last()));
            assert(frames.filter(p).map_values(v) =~= before.map_values(v).push(
                frames.last()->Some_0,
            ));
        } else {
            assert(frames.filter(p) =~= before);
        }
    }
}

} // verus!
