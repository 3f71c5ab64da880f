//! The handle that owns one descriptor, and what it decides from the answers of the
//! operating system.

use crate::structs::Inet6SockAddr;
use crate::structs::InetSockAddr;
use crate::structs::UnixSockAddr;
use crate::structs::INET6_SOCKADDR_LEN;
use crate::structs::INET_SOCKADDR_LEN;
use crate::structs::UNIX_SOCKADDR_LEN;
use vstd::prelude::*;

verus! {

/// The `fcntl` command that reads the flag word of a descriptor.
pub const F_GETFL: i32 = 3;

/// The `fcntl` command that writes the flag word of a descriptor.
pub const F_SETFL: i32 = 4;

/// The bit of the flag word that makes a descriptor non-blocking.
pub const O_NONBLOCK: i32 = 0o4000;

/// Why an operation on a socket failed.
#[derive(Clone, Copy, Debug, PartialEq, Eq, Structural)]
pub enum SocketError {
    /// The handle has given up its descriptor.
    Closed,
    /// The operating system refused; this is the negative number that it returned.
    Os(i64),
    /// An accept gave an address of another length than the record of the family has;
    /// this is the number that the operating system returned.
    Length(i32),
}

/// A failed accept: the error, and the descriptor that the operating system handed out
/// all the same and that has to be released.
#[derive(Clone, Copy, Debug, PartialEq, Eq, Structural)]
pub struct Rejected {
    pub error: SocketError,
    pub release: Option<i32>,
}

/// The flag word `flags` with the non-blocking bit cleared (`block`) or set.
pub open spec fn blocking_flags(flags: i32, block: bool) -> i32 {
    if block {
        flags & !O_NONBLOCK
    } else {
        flags | O_NONBLOCK
    }
}

/// What an accept comes to: the descriptor of the new socket, or why there is none.
/// `owner` is the descriptor of the listening handle, if it still has one; `raw` and `len`
/// are the number that the operating system returned and the address length that it
/// reported; `expected` is the length of the record of the family.
pub open spec fn accept_outcome(owner: Option<int>, raw: i32, len: u32, expected: nat) -> Result<
    i32,
    Rejected,
> {
    let spare = if raw >= 0 {
        Some(raw)
    } else {
        None
    };
    if owner is None {
        Err(Rejected { error: SocketError::Closed, release: spare })
    } else if len != expected {
        Err(Rejected { error: SocketError::Length(raw), release: spare })
    } else if raw < 0 {
        Err(Rejected { error: SocketError::Os(raw as i64), release: None })
    } else {
        Ok(raw)
    }
}

/// The owner of one descriptor. It gives the descriptor up once, on `close`, and from
/// then on refuses every operation.
#[derive(Debug)]
pub struct Socket {
    fd: i32,
    open: bool,
}

impl View for Socket {
    type V = Option<int>;

    /// The descriptor that the handle owns, or `None` once it has given it up.
    closed spec fn view(&self) -> Option<int> {
        if self.open {
            Some(self.fd as int)
        } else {
            None
        }
    }
}

impl Socket {
    #[verifier::type_invariant]
    spec fn inv(&self) -> bool {
        self.fd >= 0
    }

    /// What the handle makes of the number `raw` that the operating system returned for
    /// a call that yields nothing else.
    pub open spec fn settled(&self, raw: i32) -> Result<(), SocketError> {
        if self@ is None {
            Err(SocketError::Closed)
        } else if raw < 0 {
            Err(SocketError::Os(raw as i64))
        } else {
            Ok(())
        }
    }

    /// What the handle makes of the number `raw` that the operating system returned for
    /// a read or a write: the count of bytes moved, or the error.
    pub open spec fn transferred(&self, raw: i64) -> Result<i64, SocketError> {
        if self@ is None {
            Err(SocketError::Closed)
        } else if raw < 0 {
            Err(SocketError::Os(raw))
        } else {
            Ok(raw)
        }
    }

    /// The handle for the descriptor `raw` that the operating system returned for a new
    /// socket, or the error if it returned none.
    pub fn new(raw: i32) -> (r: Result<Socket, SocketError>)
        ensures
            raw < 0 ==> (r matches Err(e) && e == SocketError::Os(raw as i64)),
            raw >= 0 ==> (r matches Ok(s) && s@ == Some(raw as int)),
    {
        if raw < 0 {
            Err(SocketError::Os(raw as i64))
        } else {
            Ok(Socket { fd: raw, open: true })
        }
    }

    /// The descriptor to hand to the operating system, while the handle owns one.
    pub fn fd(&self) -> (r: Result<i32, SocketError>)
        ensures
            match self@ {
                Some(fd) => r == Ok::<i32, SocketError>(fd as i32) && 0 <= fd <= i32::MAX,
                None => r == Err::<i32, SocketError>(SocketError::Closed),
            },
    {
        proof {
            use_type_invariant(self);
        }
        if self.open {
            Ok(self.fd)
        } else {
            Err(SocketError::Closed)
        }
    }

    /// The result of a call that yields nothing but the number `raw` that the operating
    /// system returned for it, such as the writing of the flag word.
    pub fn settle(&self, raw: i32) -> (r: Result<(), SocketError>)
        ensures
            r == self.settled(raw),
    {
        if !self.open {
            Err(SocketError::Closed)
        } else if raw < 0 {
            Err(SocketError::Os(raw as i64))
        } else {
            Ok(())
        }
    }

    /// The result of a bind for which the operating system returned `raw`.
    pub fn bind(&self, raw: i32) -> (r: Result<(), SocketError>)
        ensures
            r == self.settled(raw),
    {
        self.settle(raw)
    }

    /// The result of a connect for which the operating system returned `raw`.
    pub fn connect(&self, raw: i32) -> (r: Result<(), SocketError>)
        ensures
            r == self.settled(raw),
    {
        self.settle(raw)
    }

    /// The result of a listen for which the operating system returned `raw`.
    pub fn listen(&self, raw: i32) -> (r: Result<(), SocketError>)
        ensures
            r == self.settled(raw),
    {
        self.settle(raw)
    }

    /// The result of a read for which the operating system returned `raw`: the count of
    /// bytes read, which is zero when the peer has shut down in order.
    pub fn read(&self, raw: i64) -> (r: Result<i64, SocketError>)
        ensures
            r == self.transferred(raw),
    {
        if !self.open {
            Err(SocketError::Closed)
        } else if raw < 0 {
            Err(SocketError::Os(raw))
        } else {
            Ok(raw)
        }
    }

    /// The result of a write for which the operating system returned `raw`: the count of
    /// bytes written.
    pub fn write(&self, raw: i64) -> (r: Result<i64, SocketError>)
        ensures
            r == self.transferred(raw),
    {
        if !self.open {
            Err(SocketError::Closed)
        } else if raw < 0 {
            Err(SocketError::Os(raw))
        } else {
            Ok(raw)
        }
    }

    /// The flag word to write back so that the descriptor blocks (`block`) or does not,
    /// where `flags` is what reading the flag word returned. A failed reading is an error.
    pub fn setblocking(&self, block: bool, flags: i32) -> (r: Result<i32, SocketError>)
        ensures
            self@ is None ==> r == Err::<i32, SocketError>(SocketError::Closed),
            self@ is Some && flags < 0 ==> r == Err::<i32, SocketError>(
                SocketError::Os(flags as i64),
            ),
            self@ is Some && flags >= 0 ==> r == Ok::<i32, SocketError>(
                blocking_flags(flags, block),
            ),
    {
        if !self.open {
            Err(SocketError::Closed)
        } else if flags < 0 {
            Err(SocketError::Os(flags as i64))
        } else if block {
            Ok(flags & !O_NONBLOCK)
        } else {
            Ok(flags | O_NONBLOCK)
        }
    }

    /// Gives up the descriptor. The first call returns it, to be released; every later
    /// call returns nothing.
    pub fn close(&mut self) -> (r: Option<i32>)
        ensures
            final(self)@ is None,
            match old(self)@ {
                Some(fd) => r == Some(fd as i32) && 0 <= fd <= i32::MAX,
                None => r is None,
            },
    {
        proof {
            use_type_invariant(&*self);
        }
        if self.open {
            self.open = false;
            Some(self.fd)
        } else {
            None
        }
    }

    /// The flag word to write back so that the descriptor blocks.
    pub fn block(&self, flags: i32) -> (r: Result<i32, SocketError>)
        ensures
            self@ is None ==> r == Err::<i32, SocketError>(SocketError::Closed),
            self@ is Some && flags < 0 ==> r == Err::<i32, SocketError>(
                SocketError::Os(flags as i64),
            ),
            self@ is Some && flags >= 0 ==> r == Ok::<i32, SocketError>(
                blocking_flags(flags, true),
            ),
    {
        self.setblocking(true, flags)
    }

    /// The flag word to write back so that the descriptor does not block.
    pub fn nonblock(&self, flags: i32) -> (r: Result<i32, SocketError>)
        ensures
            self@ is None ==> r == Err::<i32, SocketError>(SocketError::Closed),
            self@ is Some && flags < 0 ==> r == Err::<i32, SocketError>(
                SocketError::Os(flags as i64),
            ),
            self@ is Some && flags >= 0 ==> r == Ok::<i32, SocketError>(
                blocking_flags(flags, false),
            ),
    {
        self.setblocking(false, flags)
    }

    fn accept(&self, raw: i32, len: u32, expected: usize) -> (r: Result<Socket, Rejected>)
        ensures
            match accept_outcome(self@, raw, len, expected as nat) {
                Ok(fd) => r matches Ok(s) && s@ == Some(fd as int),
                Err(e) => r matches Err(x) && x == e,
            },
    {
        let spare = if raw >= 0 {
            Some(raw)
        } else {
            None
        };
        if !self.open {
            Err(Rejected { error: SocketError::Closed, release: spare })
        } else if len as usize != expected {
            Err(Rejected { error: SocketError::Length(raw), release: spare })
        } else if raw < 0 {
            Err(Rejected { error: SocketError::Os(raw as i64), release: None })
        } else {
            Ok(Socket { fd: raw, open: true })
        }
    }

    /// The result of an accept of an IPv4 peer: `raw` is the number that the operating
    /// system returned, `len` the address length that it reported and `record` the bytes
    /// of the record that it was given to fill. A length other than that of the record is
    /// a failure whatever `raw` is; a descriptor that came with a failure is named for
    /// release.
    pub fn acceptinet(&self, raw: i32, len: u32, record: &[u8; 16]) -> (r: Result<
        (Socket, InetSockAddr),
        Rejected,
    >)
        ensures
            len != INET_SOCKADDR_LEN ==> r is Err,
            match accept_outcome(self@, raw, len, INET_SOCKADDR_LEN as nat) {
                Ok(fd) => r matches Ok(p) && p.0@ == Some(fd as int) && p.1.image() == record@,
                Err(e) => r matches Err(x) && x == e,
            },
    {
        match self.accept(raw, len, INET_SOCKADDR_LEN) {
            Ok(peer) => Ok((peer, InetSockAddr::from_bytes(record))),
            Err(e) => Err(e),
        }
    }

    /// The result of an accept of an IPv6 peer; see `acceptinet`.
    pub fn acceptinet6(&self, raw: i32, len: u32, record: &[u8; 28]) -> (r: Result<
        (Socket, Inet6SockAddr),
        Rejected,
    >)
        ensures
            len != INET6_SOCKADDR_LEN ==> r is Err,
            match accept_outcome(self@, raw, len, INET6_SOCKADDR_LEN as nat) {
                Ok(fd) => r matches Ok(p) && p.0@ == Some(fd as int) && p.1.image() == record@,
                Err(e) => r matches Err(x) && x == e,
            },
    {
        match self.accept(raw, len, INET6_SOCKADDR_LEN) {
            Ok(peer) => Ok((peer, Inet6SockAddr::from_bytes(record))),
            Err(e) => Err(e),
        }
    }

    /// The result of an accept of a Unix peer; see `acceptinet`.
    pub fn acceptunix(&self, raw: i32, len: u32, record: &[u8; 110]) -> (r: Result<
        (Socket, UnixSockAddr),
        Rejected,
    >)
        ensures
            len != UNIX_SOCKADDR_LEN ==> r is Err,
            match accept_outcome(self@, raw, len, UNIX_SOCKADDR_LEN as nat) {
                Ok(fd) => r matches Ok(p) && p.0@ == Some(fd as int) && p.1.image() == record@,
                Err(e) => r matches Err(x) && x == e,
            },
    {
        match self.accept(raw, len, UNIX_SOCKADDR_LEN) {
            Ok(peer) => Ok((peer, UnixSockAddr::from_bytes(record))),
            Err(e) => Err(e),
        }
    }
}

/// Of two changes of the blocking mode the later one decides: blocking and then
/// non-blocking leaves the non-blocking bit set, the reverse leaves it cleared. `flags` is
/// the flag word before the two, and each change starts from the word that the one
/// before wrote.
pub proof fn lemma_blocking_last_wins(flags: i32)
    ensures
        blocking_flags(blocking_flags(flags, true), false) & O_NONBLOCK == O_NONBLOCK,
        blocking_flags(blocking_flags(flags, false), true) & O_NONBLOCK == 0,
{
    assert(((flags & !0o4000i32) | 0o4000i32) & 0o4000i32 == 0o4000i32) by (bit_vector);
    assert(((flags | 0o4000i32) & !0o4000i32) & 0o4000i32 == 0i32) by (bit_vector);
}

/// A change of the blocking mode touches the non-blocking bit and no other, and a flag
/// word that is not negative stays so.
pub proof fn lemma_blocking_one_bit(flags: i32, block: bool)
    ensures
        blocking_flags(flags, block) & !O_NONBLOCK == flags & !O_NONBLOCK,
        (blocking_flags(flags, block) & O_NONBLOCK == 0) == block,
        flags >= 0 ==> blocking_flags(flags, block) >= 0,
{
    assert((flags & !0o4000i32) & !0o4000i32 == flags & !0o4000i32) by (bit_vector);
    assert((flags | 0o4000i32) & !0o4000i32 == flags & !0o4000i32) by (bit_vector);
    assert((flags & !0o4000i32) & 0o4000i32 == 0i32) by (bit_vector);
    assert((flags | 0o4000i32) & 0o4000i32 == 0o4000i32) by (bit_vector);
    assert(flags >= 0 ==> (flags & !0o4000i32) >= 0) by (bit_vector);
    assert(flags >= 0 ==> (flags | 0o4000i32) >= 0) by (bit_vector);
}

/// The count of descriptors that `closes` calls of `close` in a row hand out for release,
/// on a handle that starts as `owner` says.
pub open spec fn released_by(owner: Option<int>, closes: nat) -> nat
    decreases closes,
{
    if closes == 0 {
        0
    } else {
        let first: nat = if owner is Some {
            1
        } else {
            0
        };
        first + released_by(None, (closes - 1) as nat)
    }
}

/// However often a handle is closed, its descriptor is handed out for release once: by the
/// first close, and by no later one.
pub proof fn lemma_released_once(owner: Option<int>, closes: nat)
    ensures
        released_by(owner, closes) == if owner is Some && closes >= 1 {
            1nat
        } else {
            0nat
        },
    decreases closes,
{
    if closes > 0 {
        lemma_released_once(None, (closes - 1) as nat);
    }
}

} // verus!
