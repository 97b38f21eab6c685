use vstd::prelude::*;
use crate::protocol::{command_frame, decode_reply, parse_reply};
use crate::serialtrait::{MySize, Sendable, Serial, SerialError};
use crate::servo42::MotorError;

verus! {

/// The driver's answer to a command that it either accepts (status 1) or refuses.
pub open spec fn ack(reply: Result<u8, MotorError>) -> Result<(), MotorError> {
    match reply {
        Ok(status) => if status == 1 {
            Ok(())
        } else {
            Err(MotorError::NegativeResponse)
        },
        Err(e) => Err(e),
    }
}

/// How the status reply of a command counts in a run of commands.
#[derive(Debug, PartialEq, Eq, Structural, Clone, Copy)]
pub enum Check {
    /// Any reply that arrives intact will do.
    AnyReply,
    /// The reply must be status 1.
    Accepted,
    /// The reply does not matter.
    Ignored,
}

/// What a status reply counts as under `check`.
pub open spec fn judge(check: Check, reply: Result<u8, MotorError>) -> Result<(), MotorError> {
    match check {
        Check::AnyReply => match reply {
            Ok(_) => Ok(()),
            Err(e) => Err(e),
        },
        Check::Accepted => ack(reply),
        Check::Ignored => Ok(()),
    }
}

/// A buffer of `n` zero bytes.
pub open spec fn zeros(n: nat) -> Seq<u8> {
    Seq::new(n, |i: int| 0u8)
}

/// What the driver at `address` makes of a read that returned `rr` and left
/// `raw` in its buffer.
pub open spec fn read_outcome<Res: Sendable>(
    address: u8,
    rr: Result<(), SerialError>,
    raw: Seq<u8>,
) -> Result<Res, MotorError> {
    match rr {
        Err(e) => Err(MotorError::SerialError(e)),
        Ok(_) => decode_reply::<Res>(address, raw),
    }
}

/// One exchange on a link: starting at `pre`, the link takes `frame`, the
/// write returning `rw`; when that succeeded, it is read into a zeroed buffer
/// of `len` bytes, the read returning `rr` and leaving `raw`. It ends at `post`.
pub open spec fn link_exchange<S: Serial>(
    pre: S,
    post: S,
    frame: Seq<u8>,
    len: nat,
    rw: Result<(), SerialError>,
    raw: Seq<u8>,
    rr: Result<(), SerialError>,
) -> bool {
    exists|mid: S|
        {
            &&& #[trigger] pre.wrote(mid, frame, rw)
            &&& match rw {
                Ok(_) => mid.was_read(post, zeros(len), raw, rr) && raw.len() == len,
                Err(_) => post == mid,
            }
        }
}

/// What the driver at `address` makes of such an exchange: the link's error
/// if the write or the read failed, the decoded reply otherwise.
pub open spec fn exchange_outcome<Res: Sendable>(
    address: u8,
    rw: Result<(), SerialError>,
    raw: Seq<u8>,
    rr: Result<(), SerialError>,
) -> Result<Res, MotorError> {
    match rw {
        Err(e) => Err(MotorError::SerialError(e)),
        Ok(_) => read_outcome::<Res>(address, rr, raw),
    }
}

/// The driver at `address` sent command `code` with argument bytes `data`
/// over a link that went from `pre` to `post`, read a reply of type `Res`
/// and made `r` of it.
pub open spec fn answered<S: Serial, Res: Sendable>(
    address: u8,
    pre: S,
    post: S,
    code: u8,
    data: Seq<u8>,
    r: Result<Res, MotorError>,
) -> bool {
    exists|rw: Result<(), SerialError>, raw: Seq<u8>, rr: Result<(), SerialError>|
        {
            &&& #[trigger] link_exchange(
                pre,
                post,
                command_frame(address, code, data),
                Res::byte_size() + 2,
                rw,
                raw,
                rr,
            )
            &&& r == exchange_outcome::<Res>(address, rw, raw, rr)
        }
}

/// Like `answered`, for a command with a status reply that counts as `check`.
pub open spec fn step<S: Serial>(
    address: u8,
    pre: S,
    post: S,
    code: u8,
    data: Seq<u8>,
    check: Check,
    r: Result<(), MotorError>,
) -> bool {
    exists|reply: Result<u8, MotorError>|
        #[trigger] answered::<S, u8>(address, pre, post, code, data, reply) && r == judge(check, reply)
}

/// The driver at `address` ran the commands `cmds` (code, argument bytes,
/// how the status reply counts) in order over a link that went from `pre`
/// to `post`, stopping at the first command whose reply counts as a
/// failure; `r` is that failure, or success when there was none.
pub open spec fn ran<S: Serial>(
    address: u8,
    pre: S,
    post: S,
    cmds: Seq<(u8, Seq<u8>, Check)>,
    r: Result<(), MotorError>,
) -> bool
    decreases cmds.len(),
{
    if cmds.len() == 0 {
        post == pre && r is Ok
    } else {
        ||| r is Err && ran(address, pre, post, cmds.drop_last(), r)
        ||| exists|mid: S|
            {
                &&& ran(address, pre, mid, cmds.drop_last(), Ok(()))
                &&& #[trigger] step(address, mid, post, cmds.last().0, cmds.last().1, cmds.last().2, r)
            }
    }
}

/// The run of `cmds` from `pre` got as far as its `k`-th command (counting
/// from 1) and ended there in `post` with result `r`: the commands before
/// it went through, and it either failed with `r` or was the last one.
pub open spec fn stopped_at<S: Serial>(
    address: u8,
    pre: S,
    post: S,
    cmds: Seq<(u8, Seq<u8>, Check)>,
    k: int,
    r: Result<(), MotorError>,
) -> bool {
    &&& 1 <= k <= cmds.len()
    &&& exists|mid: S|
        {
            &&& ran(address, pre, mid, cmds.take(k - 1), Ok(()))
            &&& #[trigger] step(address, mid, post, cmds[k - 1].0, cmds[k - 1].1, cmds[k - 1].2, r)
        }
    &&& k < cmds.len() ==> r is Err
}

/// A run that went through its first `k` commands and ended at command
/// `k` (counting from 0), either by failing or because that was the last
/// one, stopped at command `k + 1` counting from 1.
pub proof fn lemma_stopped_at<S: Serial>(
    address: u8,
    pre: S,
    mid: S,
    post: S,
    cmds: Seq<(u8, Seq<u8>, Check)>,
    k: int,
    r: Result<(), MotorError>,
)
    requires
        0 <= k < cmds.len(),
        ran(address, pre, mid, cmds.take(k), Ok(())),
        step(address, mid, post, cmds[k].0, cmds[k].1, cmds[k].2, r),
        k + 1 < cmds.len() ==> r is Err,
    ensures
        stopped_at(address, pre, post, cmds, k + 1, r),
{
    assert(cmds.take(k + 1 - 1) == cmds.take(k));
    assert(cmds[k + 1 - 1] == cmds[k]);
    assert(step(address, mid, post, cmds[k + 1 - 1].0, cmds[k + 1 - 1].1, cmds[k + 1 - 1].2, r));
}

/// Two runs one after the other are one run over both command lists, when
/// the first went through.
pub proof fn lemma_ran_concat<S: Serial>(
    address: u8,
    pre: S,
    mid: S,
    post: S,
    first: Seq<(u8, Seq<u8>, Check)>,
    second: Seq<(u8, Seq<u8>, Check)>,
    r: Result<(), MotorError>,
)
    requires
        ran(address, pre, mid, first, Ok(())),
        ran(address, mid, post, second, r),
    ensures
        ran(address, pre, post, first + second, r),
    decreases second.len(),
{
    if second.len() == 0 {
        assert(first + second =~= first);
        assert(r->Ok_0 == ());
        assert(r == Ok::<(), MotorError>(()));
    } else {
        let both = first + second;
        assert(both.drop_last() =~= first + second.drop_last());
        assert(both.last() == second.last());
        if r is Err && ran(address, mid, post, second.drop_last(), r) {
            lemma_ran_concat(address, pre, mid, post, first, second.drop_last(), r);
        } else {
            let m = choose|m: S|
                {
                    &&& ran(address, mid, m, second.drop_last(), Ok(()))
                    &&& #[trigger] step(
                        address,
                        m,
                        post,
                        second.last().0,
                        second.last().1,
                        second.last().2,
                        r,
                    )
                };
            lemma_ran_concat(address, pre, mid, m, first, second.drop_last(), Ok(()));
            assert(step(address, m, post, both.last().0, both.last().1, both.last().2, r));
        }
    }
}

/// A run that stopped, by failing, within its first list of commands
/// stopped at the same command of a longer list.
pub proof fn lemma_stopped_at_prefix<S: Serial>(
    address: u8,
    pre: S,
    post: S,
    first: Seq<(u8, Seq<u8>, Check)>,
    second: Seq<(u8, Seq<u8>, Check)>,
    k: int,
    r: Result<(), MotorError>,
)
    requires
        stopped_at(address, pre, post, first, k, r),
        r is Err,
    ensures
        stopped_at(address, pre, post, first + second, k, r),
{
    let both = first + second;
    assert(both.take(k - 1) =~= first.take(k - 1));
    assert(both[k - 1] == first[k - 1]);
    let m = choose|m: S|
        {
            &&& ran(address, pre, m, first.take(k - 1), Ok(()))
            &&& #[trigger] step(address, m, post, first[k - 1].0, first[k - 1].1, first[k - 1].2, r)
        };
    assert(step(address, m, post, both[k - 1].0, both[k - 1].1, both[k - 1].2, r));
}

/// A run that went through a first list of commands and then stopped at
/// command `j` of a second list stopped at command `first.len() + j` of
/// both together.
pub proof fn lemma_stopped_at_suffix<S: Serial>(
    address: u8,
    pre: S,
    mid: S,
    post: S,
    first: Seq<(u8, Seq<u8>, Check)>,
    second: Seq<(u8, Seq<u8>, Check)>,
    j: int,
    r: Result<(), MotorError>,
)
    requires
        ran(address, pre, mid, first, Ok(())),
        stopped_at(address, mid, post, second, j, r),
    ensures
        stopped_at(address, pre, post, first + second, first.len() + j, r),
{
    let both = first + second;
    let m = choose|m: S|
        {
            &&& ran(address, mid, m, second.take(j - 1), Ok(()))
            &&& #[trigger] step(address, m, post, second[j - 1].0, second[j - 1].1, second[j - 1].2, r)
        };
    lemma_ran_concat(address, pre, mid, m, first, second.take(j - 1), Ok(()));
    assert(both.take(first.len() + j - 1) =~= first + second.take(j - 1));
    assert(both[first.len() + j - 1] == second[j - 1]);
    assert(step(
        address,
        m,
        post,
        both[first.len() + j - 1].0,
        both[first.len() + j - 1].1,
        both[first.len() + j - 1].2,
        r,
    ));
}

/// A run of no commands leaves the link as it is and succeeds.
pub proof fn lemma_ran_nothing<S: Serial>(address: u8, s: S)
    ensures
        ran(address, s, s, Seq::empty(), Ok(())),
{
}

/// A run that reached command `k` without failure goes on by that command;
/// if that command fails, the whole run ends there with its failure.
pub proof fn lemma_ran_next<S: Serial>(
    address: u8,
    pre: S,
    mid: S,
    post: S,
    cmds: Seq<(u8, Seq<u8>, Check)>,
    k: int,
    r: Result<(), MotorError>,
)
    requires
        0 <= k < cmds.len(),
        ran(address, pre, mid, cmds.take(k), Ok(())),
        step(address, mid, post, cmds[k].0, cmds[k].1, cmds[k].2, r),
    ensures
        ran(address, pre, post, cmds.take(k + 1), r),
        r is Ok ==> ran(address, pre, post, cmds.take(k + 1), Ok(())),
        r is Err ==> ran(address, pre, post, cmds, r),
{
    assert(cmds.take(k + 1).drop_last() =~= cmds.take(k));
    assert(cmds.take(k + 1).last() == cmds[k]);
    let c = cmds.take(k + 1);
    assert(ran(address, pre, mid, c.drop_last(), Ok(())));
    assert(step(address, mid, post, c.last().0, c.last().1, c.last().2, r));
    assert(c.len() > 0);
    assert(ran(address, pre, post, c, r));
    if r is Ok {
        assert(r->Ok_0 == ());
        assert(r == Ok::<(), MotorError>(()));
    }
    if r is Err {
        lemma_ran_failed_rest(address, pre, post, cmds, k + 1, r);
    }
}

/// A run that failed within its first `k` commands fails with the same
/// failure over all of them.
pub proof fn lemma_ran_failed_rest<S: Serial>(
    address: u8,
    pre: S,
    post: S,
    cmds: Seq<(u8, Seq<u8>, Check)>,
    k: int,
    r: Result<(), MotorError>,
)
    requires
        0 <= k <= cmds.len(),
        r is Err,
        ran(address, pre, post, cmds.take(k), r),
    ensures
        ran(address, pre, post, cmds, r),
    decreases cmds.len() - k,
{
    if k < cmds.len() {
        assert(cmds.take(k + 1).drop_last() =~= cmds.take(k));
        assert(ran(address, pre, post, cmds.take(k + 1).drop_last(), r));
        lemma_ran_failed_rest(address, pre, post, cmds, k + 1, r);
    } else {
        assert(cmds.take(k) =~= cmds);
    }
}

/// A command whose reply must be accepted is also a command whose reply is
/// ignored.
pub proof fn lemma_step_ignored<S: Serial>(
    address: u8,
    pre: S,
    post: S,
    code: u8,
    data: Seq<u8>,
    r: Result<(), MotorError>,
)
    requires
        step(address, pre, post, code, data, Check::Accepted, r),
    ensures
        step(address, pre, post, code, data, Check::Ignored, Ok(())),
{
    let reply = choose|reply: Result<u8, MotorError>|
        #[trigger] answered::<S, u8>(address, pre, post, code, data, reply) && r == judge(
            Check::Accepted,
            reply,
        );
    assert(answered::<S, u8>(address, pre, post, code, data, reply));
}

/// A buffer of `n` zero bytes.
fn zeroed(n: usize) -> (v: Vec<u8>)
    ensures
        v@ == zeros(n as nat),
{
    let mut v: Vec<u8> = Vec::new();
    let mut i: usize = 0;
    while i < n
        invariant
            i <= n,
            v@ == zeros(i as nat),
        decreases n - i,
    {
        v.push(0u8);
        i += 1;
        assert(v@ =~= zeros(i as nat));
    }
    v
}

/// A Servo42C driver board on a serial link, with the address it is spoken
/// to at and the settings that were last sent to it.
pub struct Servo42C<S: Serial> {
    pub s: S,
    pub address: u8,
    pub microstep: u8,
    pub kp: u16,
    pub ki: u16,
    pub kd: u16,
    pub acc: u16,
}

impl<S: Serial> Servo42C<S> {
    /// `self` and `post` hold the same address and the same settings.
    pub open spec fn same_settings(self, post: Self) -> bool {
        &&& post.address == self.address
        &&& post.microstep == self.microstep
        &&& post.kp == self.kp
        &&& post.ki == self.ki
        &&& post.kd == self.kd
        &&& post.acc == self.acc
    }

    /// A driver on link `s` at the factory address 0xe0 with the default
    /// settings, before anything was sent.
    pub fn empty_new(s: S) -> (r: Servo42C<S>)
        ensures
            r.s == s,
            r.address == 0xe0,
            r.kp == 1616,
            r.ki == 288,
            r.kd == 1616,
            r.acc == 286,
            r.microstep == 16,
    {
        Servo42C::<S> { address: 0xe0, s, kp: 1616, ki: 288, kd: 1616, acc: 286, microstep: 16 }
    }

    /// Writes to the link the frame of command `code` with argument `data`:
    /// address, code, argument bytes and checksum. The result is the write's.
    pub fn send<Data: Sendable>(&mut self, code: u8, data: Data) -> (r: Result<(), MotorError>)
        requires
            Data::byte_size() + 3 <= usize::MAX,
        ensures
            exists|w: Result<(), SerialError>|
                {
                    &&& #[trigger] old(self).s.wrote(
                        final(self).s,
                        command_frame(old(self).address, code, data.encoding()),
                        w,
                    )
                    &&& w is Ok <==> r is Ok
                    &&& w matches Err(e) ==> r == Err::<(), MotorError>(MotorError::SerialError(e))
                },
            old(self).same_settings(*final(self)),
    {
        let ghost payload = data.encoding();
        proof {
            Data::lemma_encoding_len(data);
        }
        let mut to_send = ((self.address, code), (data, 0u8)).into_byte();
        let n = to_send.len();
        let c = crate::protocol::checksum_of(vstd::slice::slice_subrange(to_send.as_slice(), 0, n - 1));
        proof {
            let body = seq![self.address, code] + payload;
            assert(to_send@.subrange(0, n - 1) =~= body);
        }
        to_send.set(n - 1, c);
        proof {
            assert(to_send@ =~= command_frame(self.address, code, payload));
        }
        let ghost link0 = self.s;
        let w = self.s.write(to_send.as_slice());
        proof {
            assert(link0.wrote(self.s, to_send@, w));
        }
        match w {
            Ok(()) => Ok(()),
            Err(e) => Err(MotorError::SerialError(e)),
        }
    }

    /// Reads one reply of type `Res` (address, payload, checksum) into a
    /// zeroed buffer and decodes what the link left in it. The reply is
    /// refused when the checksum does not hold or the address is not this
    /// driver's.
    pub fn read<Res: Sendable>(&mut self) -> (r: Result<Res, MotorError>)
        requires
            Res::byte_size() + 2 <= usize::MAX,
        ensures
            exists|raw: Seq<u8>, rr: Result<(), SerialError>|
                {
                    &&& #[trigger] old(self).s.was_read(
                        final(self).s,
                        zeros(Res::byte_size() + 2),
                        raw,
                        rr,
                    )
                    &&& raw.len() == Res::byte_size() + 2
                    &&& r == read_outcome::<Res>(old(self).address, rr, raw)
                },
            old(self).same_settings(*final(self)),
    {
        let n = <((u8, Res), u8)>::size();
        let mut readen: Vec<u8> = zeroed(n);
        let ghost link0 = self.s;
        let rr = self.s.read(readen.as_mut_slice());
        let ghost raw = readen@;
        proof {
            assert(link0.was_read(self.s, zeros(n as nat), raw, rr));
            assert(raw.len() == Res::byte_size() + 2);
        }
        match rr {
            Ok(()) => {},
            Err(e) => {
                return Err(MotorError::SerialError(e));
            },
        }
        parse_reply::<Res>(self.address, readen.as_slice())
    }

    /// Sends command `code` with argument `data` and, when the write
    /// succeeded, reads and decodes the reply.
    pub fn send_cmd<Data: Sendable, Res: Sendable>(&mut self, code: u8, data: Data) -> (r: Result<
        Res,
        MotorError,
    >)
        requires
            Data::byte_size() + 3 <= usize::MAX,
            Res::byte_size() + 2 <= usize::MAX,
        ensures
            answered::<S, Res>(old(self).address, old(self).s, final(self).s, code, data.encoding(), r),
            old(self).same_settings(*final(self)),
    {
        let ghost pre = self.s;
        let ghost frame = command_frame(self.address, code, data.encoding());
        let ghost len = Res::byte_size() + 2;
        let sent = self.send(code, data);
        let ghost mid = self.s;
        let ghost w = choose|w: Result<(), SerialError>|
            {
                &&& #[trigger] pre.wrote(mid, frame, w)
                &&& w is Ok <==> sent is Ok
                &&& w matches Err(e) ==> sent == Err::<(), MotorError>(MotorError::SerialError(e))
            };
        match sent {
            Ok(()) => {},
            Err(e) => {
                proof {
                    assert(link_exchange(pre, mid, frame, len, w, Seq::empty(), w));
                }
                return Err(e);
            },
        }
        let r: Result<Res, MotorError> = self.read();
        proof {
            let (raw, rr) = choose|raw: Seq<u8>, rr: Result<(), SerialError>|
                {
                    &&& #[trigger] mid.was_read(self.s, zeros(len), raw, rr)
                    &&& raw.len() == len
                    &&& r == read_outcome::<Res>(self.address, rr, raw)
                };
            assert(link_exchange(pre, self.s, frame, len, w, raw, rr));
        }
        r
    }
}

} // verus!
