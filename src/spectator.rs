use std::sync::mpsc::{SendError, Sender};
use vstd::prelude::*;

verus! {

#[verifier::external_type_specification]
#[verifier::external_body]
#[verifier::reject_recursive_types(T)]
pub struct ExSender<T>(Sender<T>);

#[verifier::external_type_specification]
#[verifier::external_body]
#[verifier::reject_recursive_types(T)]
pub struct ExSendError<T>(SendError<T>);

/// Relies on `std::sync::mpsc::Sender::send`, which hands the value to the
/// receiving side or returns it when that side is gone; nothing is assumed
/// of which.
pub assume_specification<T>[ Sender::<T>::send ](s: &Sender<T>, t: T) -> (r: Result<
    (),
    SendError<T>,
>);

/// A point-in-time picture of a game, as spectators receive it.
pub struct GameSnapshot {
    pub width: i32,
    pub height: i32,
    /// The snake's cells, head first.
    pub snake: Vec<(i32, i32)>,
    pub food: Option<(i32, i32)>,
    pub score: usize,
    pub state: String,
    pub tick: u64,
}

/// The game's end of the queue that feeds the broadcast worker.
pub struct SpectatorHandle {
    tx: Sender<GameSnapshot>,
}

impl SpectatorHandle {
    /// The sending end this handle writes to.
    pub closed spec fn sender(&self) -> Sender<GameSnapshot> {
        self.tx
    }

    pub fn from_sender(tx: Sender<GameSnapshot>) -> (r: SpectatorHandle)
        ensures
            r.sender() == tx,
    {
        SpectatorHandle { tx }
    }

    /// Queues a snapshot; when the worker is gone the snapshot is dropped.
    pub fn send(&self, snapshot: GameSnapshot) {
        let _ = self.tx.send(snapshot);
    }
}

/// The items of `s` whose flag in `ok` is set, in their order.
pub open spec fn kept<T>(s: Seq<T>, ok: Seq<bool>) -> Seq<T>
    decreases s.len(),
{
    if s.len() == 0 {
        Seq::empty()
    } else {
        let rest = kept(s.drop_last(), ok.drop_last());
        if ok.last() {
            rest.push(s.last())
        } else {
            rest
        }
    }
}

/// The number of set flags.
pub open spec fn count_ok(ok: Seq<bool>) -> nat
    decreases ok.len(),
{
    if ok.len() == 0 {
        0
    } else {
        count_ok(ok.drop_last()) + if ok.last() {
            1nat
        } else {
            0nat
        }
    }
}

/// A failed write drops only its own connection: every connection whose
/// write succeeded stays for the next snapshot, no connection whose write
/// failed does (unless an equal one succeeded), and as many stay as writes
/// succeeded.
pub proof fn lemma_failures_drop_only_themselves<T>(s: Seq<T>, ok: Seq<bool>)
    requires
        s.len() == ok.len(),
    ensures
        forall|j: int| 0 <= j < s.len() && ok[j] ==> kept(s, ok).contains(#[trigger] s[j]),
        forall|x: T| kept(s, ok).contains(x) ==> exists|j: int|
            0 <= j < s.len() && ok[j] && #[trigger] s[j] == x,
        kept(s, ok).len() == count_ok(ok),
    decreases s.len(),
{
    if s.len() > 0 {
        let s0 = s.drop_last();
        let o0 = ok.drop_last();
        lemma_failures_drop_only_themselves(s0, o0);
        let rest = kept(s0, o0);
        let n = s.len() - 1;
        assert forall|j: int| 0 <= j < s.len() && ok[j] implies kept(s, ok).contains(
            #[trigger] s[j],
        ) by {
            if j < n {
                assert(s0[j] == s[j]);
                assert(o0[j] == ok[j]);
                let k = choose|k: int| 0 <= k < rest.len() && rest[k] == s0[j];
                if ok.last() {
                    assert(rest.push(s.last())[k] == s[j]);
                }
            } else {
                assert(rest.push(s.last())[rest.len() as int] == s[j]);
            }
        }
        assert forall|x: T| kept(s, ok).contains(x) implies exists|j: int|
            0 <= j < s.len() && ok[j] && #[trigger] s[j] == x by {
            if rest.contains(x) {
                let j = choose|j: int| 0 <= j < s0.len() && o0[j] && s0[j] == x;
                assert(s[j] == s0[j] && ok[j] == o0[j]);
            } else {
                let r = kept(s, ok);
                let k = choose|k: int| 0 <= k < r.len() && r[k] == x;
                if ok.last() {
                    if k < rest.len() {
                        assert(rest[k] == x);
                    }
                    assert(s[n] == x);
                }
            }
        }
    }
}

/// After a snapshot was written to every connection, keeps those whose
/// write succeeded (`delivered[i]`) and drops the others, in order.
pub fn retain_delivered<T>(clients: Vec<T>, delivered: &Vec<bool>) -> (r: Vec<T>)
    requires
        clients.len() == delivered.len(),
    ensures
        r@ == kept(clients@, delivered@),
{
    let ghost orig = clients@;
    let mut rest = clients;
    let mut out: Vec<T> = Vec::new();
    let n = delivered.len();
    let mut i: usize = 0;
    while i < n
        invariant
            i <= n,
            n == delivered.len(),
            orig.len() == n,
            rest@ == orig.skip(i as int),
            out@ == kept(orig.take(i as int), delivered@.take(i as int)),
        decreases n - i,
    {
        let c = rest.remove(0);
        proof {
            let s = orig.take(i as int + 1);
            let f = delivered@.take(i as int + 1);
            assert(s.drop_last() =~= orig.take(i as int));
            assert(f.drop_last() =~= delivered@.take(i as int));
            assert(s.last() == orig[i as int]);
        }
        if delivered[i] {
            out.push(c);
        }
        i += 1;
        proof {
            assert(rest@ =~= orig.skip(i as int));
        }
    }
    assert(orig.take(n as int) =~= orig);
    assert(delivered@.take(n as int) =~= delivered@);
    out
}

/// ASCII whitespace, as `char::is_whitespace` sees it.
pub open spec fn is_space(b: u8) -> bool {
    b == 0x20 || b == 0x09 || b == 0x0a || b == 0x0b || b == 0x0c || b == 0x0d
}

/// The end of the first line: the index of the first `\n`, or the length.
pub open spec fn line_end(s: Seq<u8>, i: int) -> int
    decreases s.len() - i,
{
    if i < 0 || i >= s.len() || s[i] == 0x0a {
        if i < 0 {
            0
        } else {
            i
        }
    } else {
        line_end(s, i + 1)
    }
}

/// The first index at or after `i` and before `n` that is not whitespace,
/// or `n`.
pub open spec fn skip_space(s: Seq<u8>, i: int, n: int) -> int
    decreases n - i,
{
    if i >= n || !is_space(s[i]) {
        i
    } else {
        skip_space(s, i + 1, n)
    }
}

/// The first index at or after `i` and before `n` that is whitespace, or
/// `n`.
pub open spec fn word_end(s: Seq<u8>, i: int, n: int) -> int
    decreases n - i,
{
    if i >= n || is_space(s[i]) {
        i
    } else {
        word_end(s, i + 1, n)
    }
}

/// The bytes `/`.
pub open spec fn root_path() -> Seq<u8> {
    seq![0x2fu8]
}

/// The path of an HTTP request: the second whitespace-separated word of
/// its first line, or `/` when that line has fewer than two words.
pub open spec fn request_path_of(req: Seq<u8>) -> Seq<u8> {
    let n = line_end(req, 0);
    let a = skip_space(req, 0, n);
    let b = word_end(req, a, n);
    let c = skip_space(req, b, n);
    let d = word_end(req, c, n);
    if c < n {
        req.subrange(c, d)
    } else {
        root_path()
    }
}

fn is_space_byte(b: u8) -> (r: bool)
    ensures
        r == is_space(b),
{
    b == 0x20 || b == 0x09 || b == 0x0a || b == 0x0b || b == 0x0c || b == 0x0d
}

/// Extracts the request path; see `request_path_of`.
pub fn request_path(req: &[u8]) -> (r: Vec<u8>)
    ensures
        r@ == request_path_of(req@),
{
    let len = req.len();
    let mut n: usize = 0;
    while n < len && req[n] != 0x0a
        invariant
            n <= len,
            len == req@.len(),
            line_end(req@, 0) == line_end(req@, n as int),
        decreases len - n,
    {
        n += 1;
    }
    let mut a: usize = 0;
    while a < n && is_space_byte(req[a])
        invariant
            a <= n <= len,
            len == req@.len(),
            skip_space(req@, 0, n as int) == skip_space(req@, a as int, n as int),
        decreases n - a,
    {
        a += 1;
    }
    let mut b: usize = a;
    while b < n && !is_space_byte(req[b])
        invariant
            a <= b <= n <= len,
            len == req@.len(),
            word_end(req@, a as int, n as int) == word_end(req@, b as int, n as int),
        decreases n - b,
    {
        b += 1;
    }
    let mut c: usize = b;
    while c < n && is_space_byte(req[c])
        invariant
            b <= c <= n <= len,
            len == req@.len(),
            skip_space(req@, b as int, n as int) == skip_space(req@, c as int, n as int),
        decreases n - c,
    {
        c += 1;
    }
    let mut d: usize = c;
    while d < n && !is_space_byte(req[d])
        invariant
            c <= d <= n <= len,
            len == req@.len(),
            word_end(req@, c as int, n as int) == word_end(req@, d as int, n as int),
        decreases n - d,
    {
        d += 1;
    }
    let mut out: Vec<u8> = Vec::new();
    if c < n {
        let mut i: usize = c;
        while i < d
            invariant
                c <= i <= d <= len,
                len == req@.len(),
                out@ == req@.subrange(c as int, i as int),
            decreases d - i,
        {
            out.push(req[i]);
            i += 1;
            proof {
                assert(out@ =~= req@.subrange(c as int, i as int));
            }
        }
    } else {
        out.push(0x2f);
        assert(out@ =~= root_path());
    }
    out
}

/// The endpoints of the viewer's HTTP service.
#[derive(Copy, Clone, PartialEq, Eq, Structural, Debug)]
pub enum Route {
    /// `/` and `/spectator.html`: the viewer page.
    Viewer,
    /// `/health`: a fixed short body.
    Health,
    /// Anything else.
    NotFound,
}

/// The bytes `/spectator.html`.
pub open spec fn viewer_path() -> Seq<u8> {
    seq![
        0x2fu8, 0x73u8, 0x70u8, 0x65u8, 0x63u8, 0x74u8, 0x61u8, 0x74u8,
        0x6fu8, 0x72u8, 0x2eu8, 0x68u8, 0x74u8, 0x6du8, 0x6cu8,
    ]
}

/// The bytes `/health`.
pub open spec fn health_path() -> Seq<u8> {
    seq![0x2fu8, 0x68u8, 0x65u8, 0x61u8, 0x6cu8, 0x74u8, 0x68u8]
}

pub open spec fn route_of(path: Seq<u8>) -> Route {
    if path == root_path() || path == viewer_path() {
        Route::Viewer
    } else if path == health_path() {
        Route::Health
    } else {
        Route::NotFound
    }
}

fn bytes_equal(a: &[u8], b: &[u8]) -> (r: bool)
    ensures
        r == (a@ == b@),
{
    if a.len() != b.len() {
        return false;
    }
    let mut i: usize = 0;
    while i < a.len()
        invariant
            i <= a@.len(),
            a@.len() == b@.len(),
            forall|j: int| 0 <= j < i ==> a@[j] == b@[j],
        decreases a@.len() - i,
    {
        if a[i] != b[i] {
            return false;
        }
        i += 1;
    }
    assert(a@ =~= b@);
    true
}

/// Which endpoint serves `path`.
pub fn route(path: &[u8]) -> (r: Route)
    ensures
        r == route_of(path@),
{
    let root: [u8; 1] = [0x2f];
    let viewer: [u8; 15] = [
        0x2f, 0x73, 0x70, 0x65, 0x63, 0x74, 0x61, 0x74, 0x6f, 0x72, 0x2e, 0x68, 0x74, 0x6d, 0x6c,
    ];
    let health: [u8; 7] = [0x2f, 0x68, 0x65, 0x61, 0x6c, 0x74, 0x68];
    assert(root@ =~= root_path());
    assert(viewer@ =~= viewer_path());
    assert(health@ =~= health_path());
    if bytes_equal(path, root.as_slice()) || bytes_equal(path, viewer.as_slice()) {
        Route::Viewer
    } else if bytes_equal(path, health.as_slice()) {
        Route::Health
    } else {
        Route::NotFound
    }
}

impl Route {
    /// The status line's code and reason.
    pub fn status(&self) -> (r: &'static str)
        ensures
            r@ == (if *self == Route::NotFound {
                "404 Not Found"@
            } else {
                "200 OK"@
            }),
    {
        match self {
            Route::NotFound => "404 Not Found",
            _ => "200 OK",
        }
    }

    pub fn content_type(&self) -> (r: &'static str)
        ensures
            r@ == (if *self == Route::Health {
                "text/plain; charset=utf-8"@
            } else {
                "text/html; charset=utf-8"@
            }),
    {
        match self {
            Route::Health => "text/plain; charset=utf-8",
            _ => "text/html; charset=utf-8",
        }
    }

    /// The fixed body of the route; the viewer page is served by the caller.
    pub fn fixed_body(&self) -> (r: Option<&'static str>)
        ensures
            *self == Route::Viewer <==> r.is_none(),
            *self == Route::Health ==> r.unwrap()@ == "ok"@,
            *self == Route::NotFound ==> r.unwrap()@ == "not found"@,
    {
        match self {
            Route::Viewer => None,
            Route::Health => Some("ok"),
            Route::NotFound => Some("not found"),
        }
    }
}

} // verus!
