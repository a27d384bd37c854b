//! The pages of the client: where each address leads, and the form that
//! creates a lobby.

use vstd::prelude::*;

use crate::model::{CreateLobbyBody, Lobby};

verus! {

/// The pages of the client.
pub enum Route {
    /// The game of the lobby `id`.
    Lobby { id: String },
    /// The form that creates a lobby.
    CreateLobby,
}

/// `c` is a decimal digit.
pub open spec fn is_digit(c: char) -> bool {
    '0' <= c && c <= '9'
}

/// The number that the decimal digits `s` write.
pub open spec fn digits_value(s: Seq<char>) -> int
    decreases s.len(),
{
    if s.len() == 0 {
        0
    } else {
        digits_value(s.drop_last()) * 10 + (s.last() as int - '0' as int)
    }
}

/// The digits of `s`: what follows the `+` it may start with.
pub open spec fn unsigned_digits(s: Seq<char>) -> Seq<char> {
    if s.len() > 0 && s[0] == '+' {
        s.drop_first()
    } else {
        s
    }
}

/// `s` is made of decimal digits only.
pub open spec fn all_digits(s: Seq<char>) -> bool {
    forall|i: int| 0 <= i < s.len() ==> is_digit(#[trigger] s[i])
}

/// What `u8`'s `FromStr` reads in `s`: an optional `+` and then at least
/// one decimal digit and nothing else, of a value that fits in a byte.
pub open spec fn parsed_u8(s: Seq<char>) -> Option<u8> {
    let d = unsigned_digits(s);
    if d.len() > 0 && all_digits(d) && digits_value(d) <= 255 {
        Some(digits_value(d) as u8)
    } else {
        None
    }
}

/// More digits never make a smaller number.
proof fn lemma_digits_grow(s: Seq<char>, k: int)
    requires
        0 <= k <= s.len(),
        all_digits(s),
    ensures
        digits_value(s.take(k)) <= digits_value(s),
        digits_value(s) >= 0,
    decreases s.len(),
{
    if s.len() > 0 {
        let d = s.drop_last();
        assert forall|i: int| 0 <= i < d.len() implies is_digit(#[trigger] d[i]) by {
            assert(d[i] == s[i]);
        }
        if k < s.len() {
            lemma_digits_grow(d, k);
            assert(d.take(k) =~= s.take(k));
        } else {
            lemma_digits_grow(d, 0);
            assert(s.take(k) =~= s);
        }
    } else {
        assert(s.take(k) =~= s);
    }
}

/// Reads a byte written in decimal, as `u8`'s `FromStr` does.
pub fn parse_u8(s: &str) -> (r: Option<u8>)
    ensures
        r == parsed_u8(s@),
{
    let n = s.unicode_len();
    let ghost d = unsigned_digits(s@);
    let start: usize = if n > 0 && s.get_char(0) == '+' { 1 } else { 0 };
    assert(d =~= s@.skip(start as int));
    if start >= n {
        return None;
    }
    let mut value: u16 = 0;
    let mut i: usize = start;
    while i < n
        invariant
            n == s@.len(),
            start <= i <= n,
            d == s@.skip(start as int),
            d == unsigned_digits(s@),
            forall|j: int| 0 <= j < i - start ==> is_digit(#[trigger] d[j]),
            value == digits_value(d.take(i - start)),
            value <= 255,
        decreases n - i,
    {
        let c = s.get_char(i);
        assert(c == d[i - start]);
        if !('0' <= c && c <= '9') {
            assert(!is_digit(d[i - start]));
            return None;
        }
        let digit: u16 = ((c as u32) - ('0' as u32)) as u16;
        assert(d.take(i - start + 1).drop_last() =~= d.take(i - start));
        value = value * 10 + digit;
        i = i + 1;
        if value > 255 {
            proof {
                let k = i - start;
                if all_digits(d) {
                    lemma_digits_grow(d, k);
                }
            }
            return None;
        }
    }
    assert(d.take(n - start) =~= d);
    Some(value as u8)
}

/// The state of the form that creates a lobby: the size asked for, and
/// whether the request has gone out.
pub struct LobbyForm {
    pub grid_width: u8,
    pub grid_height: u8,
    pub sent: bool,
}

impl LobbyForm {
    /// A form asking for 15 by 15 tiles, not sent.
    pub fn new() -> (r: Self)
        ensures
            r.grid_width == 15,
            r.grid_height == 15,
            !r.sent,
    {
        LobbyForm { grid_width: 15, grid_height: 15, sent: false }
    }

    /// The width field now reads `input`, if it could be read: the width
    /// becomes the byte it writes, or stays as it was.
    pub fn on_grid_width_change(&mut self, input: Option<String>)
        ensures
            final(self).grid_width == match input {
                Some(s) => match parsed_u8(s@) {
                    Some(v) => v,
                    None => old(self).grid_width,
                },
                None => old(self).grid_width,
            },
            final(self).grid_height == old(self).grid_height,
            final(self).sent == old(self).sent,
    {
        if let Some(s) = input {
            if let Some(v) = parse_u8(s.as_str()) {
                self.grid_width = v;
            }
        }
    }

    /// The height field now reads `input`, if it could be read: the height
    /// becomes the byte it writes, or stays as it was.
    pub fn on_grid_height_change(&mut self, input: Option<String>)
        ensures
            final(self).grid_height == match input {
                Some(s) => match parsed_u8(s@) {
                    Some(v) => v,
                    None => old(self).grid_height,
                },
                None => old(self).grid_height,
            },
            final(self).grid_width == old(self).grid_width,
            final(self).sent == old(self).sent,
    {
        if let Some(s) = input {
            if let Some(v) = parse_u8(s.as_str()) {
                self.grid_height = v;
            }
        }
    }

    /// The form is sent: the body of the request, and the form is hidden.
    pub fn on_form_submit(&mut self) -> (r: CreateLobbyBody)
        ensures
            r == (CreateLobbyBody { grid_width: old(self).grid_width, grid_height: old(self).grid_height }),
            final(self).sent,
            final(self).grid_width == old(self).grid_width,
            final(self).grid_height == old(self).grid_height,
    {
        self.sent = true;
        CreateLobbyBody { grid_width: self.grid_width, grid_height: self.grid_height }
    }

    /// The server answered with `reply`, or could not be read: a lobby
    /// leads to its page; otherwise the form shows again.
    pub fn on_reply(&mut self, reply: Option<Lobby>) -> (r: Option<Route>)
        ensures
            match reply {
                Some(lobby) => r matches Some(Route::Lobby { id }) && id@ == lobby.id@ && final(self).sent
                    == old(self).sent,
                None => r is None && !final(self).sent,
            },
            final(self).grid_width == old(self).grid_width,
            final(self).grid_height == old(self).grid_height,
    {
        match reply {
            Some(Lobby { id }) => Some(Route::Lobby { id }),
            None => {
                self.sent = false;
                None
            },
        }
    }
}

} // verus!
