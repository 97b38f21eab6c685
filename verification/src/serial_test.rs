use vstd::prelude::*;
use crate::serialtrait::{Serial, SerialError};

verus! {

/// The map that a list of (request, reply) registrations stands for: later
/// registrations of the same request replace earlier ones.
pub open spec fn registered(keys: Seq<Seq<u8>>, values: Seq<Seq<u8>>, n: nat) -> Map<Seq<u8>, Seq<u8>>
    decreases n,
{
    if n == 0 {
        Map::empty()
    } else {
        registered(keys, values, (n - 1) as nat).insert(keys[n - 1], values[n - 1])
    }
}

/// A request whose last registration among the first `n` is at `j` maps to
/// the reply registered there.
proof fn lemma_registered_at(keys: Seq<Seq<u8>>, values: Seq<Seq<u8>>, n: nat, j: int)
    requires
        0 <= j < n,
        n <= keys.len(),
        forall|k: int| j < k < n ==> keys[k] != keys[j],
    ensures
        registered(keys, values, n).contains_key(keys[j]),
        registered(keys, values, n)[keys[j]] == values[j],
    decreases n,
{
    if j < n - 1 {
        lemma_registered_at(keys, values, (n - 1) as nat, j);
    }
}

/// A request registered nowhere among the first `n` is not in the map.
proof fn lemma_registered_absent(keys: Seq<Seq<u8>>, values: Seq<Seq<u8>>, n: nat, w: Seq<u8>)
    requires
        n <= keys.len(),
        forall|k: int| 0 <= k < n ==> keys[k] != w,
    ensures
        !registered(keys, values, n).contains_key(w),
    decreases n,
{
    if n > 0 {
        lemma_registered_absent(keys, values, (n - 1) as nat, w);
    }
}

/// Byte-wise equality of two byte strings.
fn bytes_eq(a: &[u8], b: &[u8]) -> (r: bool)
    ensures
        r == (a@ == b@),
{
    let n = a.len();
    if n != b.len() {
        return false;
    }
    let mut i: usize = 0;
    while i < n
        invariant
            n == a@.len(),
            n == b@.len(),
            i <= n,
            forall|k: int| 0 <= k < i ==> a@[k] == b@[k],
        decreases n - i,
    {
        if a[i] != b[i] {
            return false;
        }
        i += 1;
    }
    assert(a@ =~= b@);
    true
}

/// A stand-in for a serial device: it answers each registered request
/// with its registered reply.
///
/// A write of a registered request makes its reply the pending answer; a
/// read hands out the pending answer (and drops it), provided the reader
/// asks for exactly its length.
///
/// The registrations are a list of (request, reply) pairs searched from
/// the newest, so a later registration of the same request wins. vstd's
/// contracts for `HashMap` hold only for key types that obey its key model,
/// which it establishes for integers, `bool` and boxes of them; for a
/// `Vec<u8>` key it could only be assumed, so nothing about what a read
/// gives back after a write could be proved over such a map. A list,
/// searched by a verified loop, keeps that law provable.
#[derive(Debug)]
pub struct SerialTest {
    entries: Vec<(Vec<u8>, Vec<u8>)>,
    response: Option<Vec<u8>>,
}

impl SerialTest {
    spec fn keys_view(self) -> Seq<Seq<u8>> {
        Seq::new(self.entries.len() as nat, |i: int| self.entries[i].0@)
    }

    spec fn values_view(self) -> Seq<Seq<u8>> {
        Seq::new(self.entries.len() as nat, |i: int| self.entries[i].1@)
    }

    /// The reply registered for each request.
    pub closed spec fn responses(self) -> Map<Seq<u8>, Seq<u8>> {
        registered(self.keys_view(), self.values_view(), self.entries.len() as nat)
    }

    /// The answer that the next read hands out, if any.
    pub closed spec fn pending(self) -> Option<Seq<u8>> {
        match self.response {
            Some(v) => Some(v@),
            None => None,
        }
    }

    /// Registers `r` as the reply to request `w`, in place of any earlier one.
    pub fn add_response(&mut self, w: Vec<u8>, r: Vec<u8>)
        ensures
            final(self).responses() == old(self).responses().insert(w@, r@),
            final(self).pending() == old(self).pending(),
    {
        let ghost w_view = w@;
        let ghost r_view = r@;
        let ghost old_keys = self.keys_view();
        let ghost old_values = self.values_view();
        let ghost n = self.entries.len();
        self.entries.push((w, r));
        proof {
            assert(self.keys_view().drop_last() =~= old_keys);
            assert(self.values_view().drop_last() =~= old_values);
            assert(self.keys_view()[n as int] == w_view);
            assert(self.values_view()[n as int] == r_view);
            assert forall|k: int| 0 <= k < n implies self.keys_view()[k] == old_keys[k] by {}
            lemma_registered_prefix(self.keys_view(), old_keys, self.values_view(), old_values, n as nat);
        }
    }

    /// The index of the last registration of `w`, if any.
    fn find(&self, w: &[u8]) -> (r: Option<usize>)
        ensures
            match r {
                Some(j) => {
                    &&& j < self.entries.len()
                    &&& self.keys_view()[j as int] == w@
                    &&& forall|k: int| j < k < self.entries.len() ==> self.keys_view()[k] != w@
                },
                None => forall|k: int| 0 <= k < self.entries.len() ==> self.keys_view()[k] != w@,
            },
    {
        let mut i = self.entries.len();
        while i > 0
            invariant
                i <= self.entries.len(),
                forall|k: int| i <= k < self.entries.len() ==> self.keys_view()[k] != w@,
            decreases i,
        {
            i -= 1;
            if bytes_eq(self.entries[i].0.as_slice(), w) {
                return Some(i);
            }
        }
        None
    }
}

/// Two registration lists that agree on their first `n` entries stand for
/// the same map over those entries.
proof fn lemma_registered_prefix(
    keys: Seq<Seq<u8>>,
    keys2: Seq<Seq<u8>>,
    values: Seq<Seq<u8>>,
    values2: Seq<Seq<u8>>,
    n: nat,
)
    requires
        n <= keys.len(),
        n <= keys2.len(),
        n <= values.len(),
        n <= values2.len(),
        forall|k: int| 0 <= k < n ==> keys[k] == keys2[k],
        forall|k: int| 0 <= k < n ==> values[k] == values2[k],
    ensures
        registered(keys, values, n) == registered(keys2, values2, n),
    decreases n,
{
    if n > 0 {
        lemma_registered_prefix(keys, keys2, values, values2, (n - 1) as nat);
    }
}

impl Default for SerialTest {
    fn default() -> (r: Self)
        ensures
            r.responses() == Map::<Seq<u8>, Seq<u8>>::empty(),
            r.pending() is None,
    {
        SerialTest { entries: Vec::new(), response: None }
    }
}

impl Serial for SerialTest {
    /// What a write of `w` does: a registered request makes its reply the
    /// pending answer and succeeds; any other request fails and leaves the
    /// pending answer as it was.
    open spec fn wrote(self, post: Self, w: Seq<u8>, r: Result<(), SerialError>) -> bool {
        &&& post.responses() == self.responses()
        &&& if self.responses().contains_key(w) {
            r is Ok && post.pending() == Some(self.responses()[w])
        } else {
            r is Err && post.pending() == self.pending()
        }
    }

    /// What a read into a buffer holding `before` does: the pending answer
    /// is dropped; if it has the buffer's length, it ends up in the buffer
    /// and the read succeeds; otherwise the read fails and the buffer keeps
    /// what it held.
    open spec fn was_read(
        self,
        post: Self,
        before: Seq<u8>,
        after: Seq<u8>,
        r: Result<(), SerialError>,
    ) -> bool {
        &&& post.responses() == self.responses()
        &&& post.pending() is None
        &&& match self.pending() {
            Some(x) => if x.len() == before.len() {
                r is Ok && after == x
            } else {
                r is Err && after == before
            },
            None => r is Err && after == before,
        }
    }

    fn read(&mut self, buf: &mut [u8]) -> (r: Result<(), SerialError>) {
        match self.response.take() {
            Some(x) => {
                let n = x.len();
                if n != buf.len() {
                    return Err(SerialError::Undefined);
                }
                let mut i: usize = 0;
                while i < n
                    invariant
                        n == x@.len(),
                        buf@.len() == n,
                        i <= n,
                        forall|k: int| 0 <= k < i ==> buf@[k] == x@[k],
                    decreases n - i,
                {
                    buf[i] = x[i];
                    i += 1;
                }
                assert(buf@ =~= x@);
                Ok(())
            },
            None => Err(SerialError::Undefined),
        }
    }

    fn write(&mut self, buf: &[u8]) -> (r: Result<(), SerialError>) {
        match self.find(buf) {
            Some(j) => {
                proof {
                    lemma_registered_at(self.keys_view(), self.values_view(), self.entries.len() as nat, j as int);
                }
                self.response = Some(vstd::slice::slice_to_vec(self.entries[j].1.as_slice()));
                Ok(())
            },
            None => {
                proof {
                    lemma_registered_absent(self.keys_view(), self.values_view(), self.entries.len() as nat, buf@);
                }
                Err(SerialError::Undefined)
            },
        }
    }
}

/// The link answers a registered request: writing the request and then
/// reading as many bytes as the registered reply holds gives back that reply.
pub proof fn lemma_registered_reply_read_back(
    t0: SerialTest,
    t1: SerialTest,
    t2: SerialTest,
    w: Seq<u8>,
    before: Seq<u8>,
    after: Seq<u8>,
    r1: Result<(), SerialError>,
    r2: Result<(), SerialError>,
)
    requires
        t0.responses().contains_key(w),
        before.len() == t0.responses()[w].len(),
        t0.wrote(t1, w, r1),
        t1.was_read(t2, before, after, r2),
    ensures
        r1 is Ok,
        r2 is Ok,
        after == t0.responses()[w],
        t2.responses() == t0.responses(),
        t2.pending() is None,
{
}

} // verus!
