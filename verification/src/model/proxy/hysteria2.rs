//! Hysteria2 server descriptors and their rendering as `hysteria2://` links.

use vstd::prelude::*;
use vstd::string::StringExecFns;
use super::decimal::{append_port, decimal_text, lemma_decimal_text_value,
    lemma_port_text_round_trip, port_of_text};
use super::escape::{encode_name, lemma_percent_encode_alphabet, lemma_percent_round_trip,
    percent_decode, percent_encode};
use super::ports::{parse_ports, port_pool};
use super::tool::{alpn_text, encode_alpn, fragment, join, join_text, lemma_join_text_push,
    optional_fragment, param};

verus! {

/// Why a descriptor cannot be rendered.
#[derive(Clone, Copy, Debug, PartialEq, Eq, Structural)]
pub enum RenderError {
    /// The descriptor gives neither a port nor a port expression.
    MissingPort,
    /// The port expression holds an item that is no port and no range.
    InvalidPorts,
    /// The port expression is well formed but stands for no port at all.
    NoCandidates,
}

/// The connection parameters of one Hysteria2 server.
#[derive(Clone, Debug)]
pub struct Hysteria2 {
    /// Display label of the server; any characters.
    pub name: String,
    /// Authentication secret, written into the link as it is.
    pub password: String,
    /// Host name or address, written into the link as it is.
    pub server: String,
    /// The port to connect to, if it is fixed.
    pub port: Option<u16>,
    /// A port expression to choose a port from when `port` is absent.
    pub ports: Option<String>,
    /// Server name for TLS.
    pub sni: Option<String>,
    /// Upload bandwidth hint.
    pub up: Option<String>,
    /// Download bandwidth hint.
    pub down: Option<String>,
    /// ALPN identifiers, in order of preference.
    pub alpn: Option<Vec<String>>,
    /// Pinned certificate fingerprint.
    pub fingerprint: Option<String>,
    /// Obfuscation method.
    pub obfs: Option<String>,
    /// Obfuscation secret.
    pub obfs_password: Option<String>,
    /// Whether the client skips certificate verification.
    pub skip_cert_verify: Option<bool>,
}

/// What a descriptor holds, as plain mathematical values.
pub struct Hysteria2View {
    pub name: Seq<char>,
    pub password: Seq<char>,
    pub server: Seq<char>,
    pub port: Option<u16>,
    pub ports: Option<Seq<char>>,
    pub sni: Option<Seq<char>>,
    pub up: Option<Seq<char>>,
    pub down: Option<Seq<char>>,
    pub alpn: Option<Seq<Seq<char>>>,
    pub fingerprint: Option<Seq<char>>,
    pub obfs: Option<Seq<char>>,
    pub obfs_password: Option<Seq<char>>,
    pub skip_cert_verify: Option<bool>,
}

impl View for Hysteria2 {
    type V = Hysteria2View;

    open spec fn view(&self) -> Hysteria2View {
        Hysteria2View {
            name: self.name@,
            password: self.password@,
            server: self.server@,
            port: self.port,
            ports: self.ports.deep_view(),
            sni: self.sni.deep_view(),
            up: self.up.deep_view(),
            down: self.down.deep_view(),
            alpn: self.alpn.deep_view(),
            fingerprint: self.fingerprint.deep_view(),
            obfs: self.obfs.deep_view(),
            obfs_password: self.obfs_password.deep_view(),
            skip_cert_verify: self.skip_cert_verify,
        }
    }
}

/// The query value of a flag: `1` for true, `0` for false.
pub open spec fn flag_text(flag: bool) -> Seq<char> {
    if flag {
        "1"@
    } else {
        "0"@
    }
}

impl Hysteria2View {
    /// The value of the `alpn` parameter, if the descriptor lists any ALPN
    /// identifiers.
    pub open spec fn alpn_value(self) -> Option<Seq<char>> {
        match self.alpn {
            Some(list) => Some(alpn_text(list)),
            None => None,
        }
    }

    /// The value of the `insecure` parameter, if the descriptor says whether
    /// to skip certificate verification.
    pub open spec fn insecure_value(self) -> Option<Seq<char>> {
        match self.skip_cert_verify {
            Some(flag) => Some(flag_text(flag)),
            None => None,
        }
    }

    /// The query fragments of the link: one for each optional field that is
    /// present, in the fixed order `sni`, `obfs`, `obfs-password`, `alpn`,
    /// `insecure`, `pinSHA256`, `up`, `down`.
    pub open spec fn fragments(self) -> Seq<Seq<char>> {
        optional_fragment("sni"@, self.sni) + optional_fragment("obfs"@, self.obfs)
            + optional_fragment("obfs-password"@, self.obfs_password) + optional_fragment(
            "alpn"@,
            self.alpn_value(),
        ) + optional_fragment("insecure"@, self.insecure_value()) + optional_fragment(
            "pinSHA256"@,
            self.fingerprint,
        ) + optional_fragment("up"@, self.up) + optional_fragment("down"@, self.down)
    }

    /// The query of the link: `?` and the fragments joined by `&`, or
    /// nothing at all if there is no fragment.
    pub open spec fn query(self) -> Seq<char> {
        if self.fragments().len() == 0 {
            Seq::empty()
        } else {
            "?"@ + join_text(self.fragments(), "&"@)
        }
    }

    /// The part of the link before the port: scheme, password, `@`, server
    /// and `:`.
    pub open spec fn head(self) -> Seq<char> {
        "hysteria2://"@ + self.password + "@"@ + self.server + ":"@
    }

    /// The part of the link after the port: the query, `#` and the
    /// percent-encoded name.
    pub open spec fn tail(self) -> Seq<char> {
        self.query() + "#"@ + percent_encode(self.name)
    }

    /// The link of the descriptor for the port `port`.
    pub open spec fn uri(self, port: u16) -> Seq<char> {
        self.head() + decimal_text(port as nat) + self.tail()
    }

    /// The ports that a rendering may use. A fixed port is the only
    /// candidate, whatever the port expression says; without one the
    /// candidates are the pool of the port expression.
    pub open spec fn candidates(self) -> Option<Seq<u16>> {
        match self.port {
            Some(port) => Some(seq![port]),
            None => match self.ports {
                Some(expr) => port_pool(expr),
                None => None,
            },
        }
    }

    /// The error that rendering ends in, or `None` if the descriptor can be
    /// rendered.
    pub open spec fn port_error(self) -> Option<RenderError> {
        match self.port {
            Some(_) => None,
            None => match self.ports {
                None => Some(RenderError::MissingPort),
                Some(expr) => match port_pool(expr) {
                    None => Some(RenderError::InvalidPorts),
                    Some(pool) => if pool.len() == 0 {
                        Some(RenderError::NoCandidates)
                    } else {
                        None
                    },
                },
            },
        }
    }

    /// Whether `text` is a rendering of the descriptor: its link for one of
    /// the candidate ports.
    pub open spec fn renders_to(self, text: Seq<char>) -> bool {
        match self.candidates() {
            Some(pool) => exists|i: int| 0 <= i < pool.len() && text == self.uri(#[trigger] pool[i]),
            None => false,
        }
    }
}

/// The fragment of a link: the text after its last `#`, or nothing if the
/// link holds no `#`.
pub open spec fn link_fragment(link: Seq<char>) -> Seq<char> {
    match link.index_of_last('#') {
        Some(at) => link.skip(at + 1),
        None => Seq::empty(),
    }
}

/// Whether `fragment` is a query fragment for the parameter `key`: whether
/// it starts with the key and `=`.
pub open spec fn has_key(fragment: Seq<char>, key: Seq<char>) -> bool {
    (key + "="@).is_prefix_of(fragment)
}

/// The parameter names of a Hysteria2 link, numbered from 0 in the order in
/// which their fragments stand in a query.
pub open spec fn query_key(n: int) -> Seq<char>
    recommends
        0 <= n < 8,
{
    if n == 0 {
        "sni"@
    } else if n == 1 {
        "obfs"@
    } else if n == 2 {
        "obfs-password"@
    } else if n == 3 {
        "alpn"@
    } else if n == 4 {
        "insecure"@
    } else if n == 5 {
        "pinSHA256"@
    } else if n == 6 {
        "up"@
    } else {
        "down"@
    }
}

impl Hysteria2View {
    /// The value that the descriptor gives to the parameter numbered `n`, if
    /// it gives one.
    pub open spec fn field_value(self, n: int) -> Option<Seq<char>>
        recommends
            0 <= n < 8,
    {
        if n == 0 {
            self.sni
        } else if n == 1 {
            self.obfs
        } else if n == 2 {
            self.obfs_password
        } else if n == 3 {
            self.alpn_value()
        } else if n == 4 {
            self.insecure_value()
        } else if n == 5 {
            self.fingerprint
        } else if n == 6 {
            self.up
        } else {
            self.down
        }
    }

    /// The fragments of the first `n` parameters.
    spec fn fragments_upto(self, n: int) -> Seq<Seq<char>>
        decreases n,
    {
        if n <= 0 {
            Seq::empty()
        } else {
            self.fragments_upto(n - 1) + optional_fragment(
                query_key(n - 1),
                self.field_value(n - 1),
            )
        }
    }

    /// Whether the query of the link holds a fragment for the parameter
    /// `key`.
    pub open spec fn mentions(self, key: Seq<char>) -> bool {
        exists|i: int|
            0 <= i < self.fragments().len() && has_key(#[trigger] self.fragments()[i], key)
    }
}

/// A descriptor with a fixed port can always be rendered, and every
/// rendering of it carries exactly that port between head and tail,
/// whatever its port expression says. The port segment reads back as the
/// port.
pub proof fn lemma_fixed_port_rendering(d: Hysteria2View, port: u16, text: Seq<char>)
    requires
        d.port == Some(port),
        d.renders_to(text),
    ensures
        d.port_error() is None,
        text == d.head() + decimal_text(port as nat) + d.tail(),
        port_of_text(decimal_text(port as nat)) == Some(port),
{
    lemma_port_text_round_trip(port);
}

/// The port segment of a link determines the port: links of one descriptor
/// for two different ports are different texts.
pub proof fn lemma_port_segment_unique(d: Hysteria2View, p: u16, q: u16)
    requires
        d.uri(p) == d.uri(q),
    ensures
        p == q,
{
    let a = decimal_text(p as nat);
    let b = decimal_text(q as nat);
    let before = d.head().len() as int;
    lemma_decimal_text_value(p as nat);
    lemma_decimal_text_value(q as nat);
    assert(d.uri(p).len() == before + a.len() + d.tail().len());
    assert(d.uri(q).len() == before + b.len() + d.tail().len());
    assert forall|i: int| 0 <= i < a.len() implies a[i] == b[i] by {
        assert(d.uri(p)[before + i] == a[i]);
        assert(d.uri(q)[before + i] == b[i]);
    }
    assert(a =~= b);
}

/// A descriptor without a fixed port whose port expression is well formed
/// renders only to links whose port segment is a member of the pool of
/// that expression.
pub proof fn lemma_rendered_port_in_pool(d: Hysteria2View, expr: Seq<char>, text: Seq<char>)
    requires
        d.port is None,
        d.ports == Some(expr),
        port_pool(expr) is Some,
        d.renders_to(text),
    ensures
        exists|port: u16| #[trigger]
            port_pool(expr).unwrap().contains(port) && text == d.head() + decimal_text(
                port as nat,
            ) + d.tail(),
{
    let pool = port_pool(expr).unwrap();
    let i = choose|i: int| 0 <= i < pool.len() && text == d.uri(#[trigger] pool[i]);
    assert(pool.contains(pool[i]));
}

/// Two renderings of one descriptor are the same text if the port is fixed.
/// If it is not, they have the same head and the same tail and differ at
/// most in the port between them, which is a candidate port in both.
pub proof fn lemma_renderings_differ_only_in_port(
    d: Hysteria2View,
    first: Seq<char>,
    second: Seq<char>,
)
    requires
        d.renders_to(first),
        d.renders_to(second),
    ensures
        d.port is Some ==> first == second,
        exists|p: u16, q: u16|
            {
                &&& #[trigger] d.candidates().unwrap().contains(p)
                &&& #[trigger] d.candidates().unwrap().contains(q)
                &&& first == d.head() + decimal_text(p as nat) + d.tail()
                &&& second == d.head() + decimal_text(q as nat) + d.tail()
            },
{
    let pool = d.candidates().unwrap();
    let i = choose|i: int| 0 <= i < pool.len() && first == d.uri(#[trigger] pool[i]);
    let j = choose|j: int| 0 <= j < pool.len() && second == d.uri(#[trigger] pool[j]);
    assert(pool.contains(pool[i]));
    assert(pool.contains(pool[j]));
}

/// Percent-decoding the fragment of a link recovers the name of the
/// descriptor exactly, whatever characters the name, the password, the
/// server or the query values hold.
pub proof fn lemma_name_round_trip(d: Hysteria2View, port: u16)
    ensures
        link_fragment(d.uri(port)) == percent_encode(d.name),
        percent_decode(link_fragment(d.uri(port))) == d.name,
{
    reveal_strlit("#");
    let link = d.uri(port);
    let encoded = percent_encode(d.name);
    let front = d.head() + decimal_text(port as nat) + d.query();
    lemma_percent_encode_alphabet(d.name);
    lemma_percent_round_trip(d.name);
    assert(link =~= front + "#"@ + encoded);
    let at = front.len() as int;
    assert(link[at] == '#');
    assert forall|j: int| at < j < link.len() implies link[j] != '#' by {
        assert(link[j] == encoded[j - at - 1]);
    }
    link.index_of_last_ensures('#');
    assert(link.index_of_last('#') == Some(at));
    assert(link.skip(at + 1) =~= encoded);
}

/// A fragment names one parameter only: the fragment of one parameter never
/// counts as the fragment of another.
pub proof fn lemma_fragment_key(m: int, n: int, value: Seq<char>)
    requires
        0 <= m < 8,
        0 <= n < 8,
    ensures
        has_key(fragment(query_key(m), value), query_key(n)) <==> m == n,
{
    reveal_strlit("sni");
    reveal_strlit("obfs");
    reveal_strlit("obfs-password");
    reveal_strlit("alpn");
    reveal_strlit("insecure");
    reveal_strlit("pinSHA256");
    reveal_strlit("up");
    reveal_strlit("down");
    reveal_strlit("=");
    let whole = fragment(query_key(m), value);
    let start = query_key(n) + "="@;
    if m == n {
        assert(start =~= whole.subrange(0, start.len() as int));
    } else if has_key(whole, query_key(n)) {
        assert(start[0] == whole.subrange(0, start.len() as int)[0]);
        assert(start[4] == whole.subrange(0, start.len() as int)[4]);
    }
}

/// The fragments of a descriptor are those of its eight parameters.
proof fn lemma_fragments_unfold(d: Hysteria2View)
    ensures
        d.fragments() == d.fragments_upto(8),
{
    reveal_with_fuel(Hysteria2View::fragments_upto, 9);
    assert(d.fragments() =~= d.fragments_upto(8));
}

/// Every fragment among those of the first `n` parameters stems from one of
/// them that has a value.
proof fn lemma_upto_origin(d: Hysteria2View, n: int, i: int) -> (m: int)
    requires
        0 <= n <= 8,
        0 <= i < d.fragments_upto(n).len(),
    ensures
        0 <= m < n,
        d.field_value(m) matches Some(v) && d.fragments_upto(n)[i] == fragment(query_key(m), v),
    decreases n,
{
    let before = d.fragments_upto(n - 1);
    if i < before.len() {
        lemma_upto_origin(d, n - 1, i)
    } else {
        n - 1
    }
}

/// A parameter among the first `n` that has a value has its fragment among
/// theirs.
proof fn lemma_upto_holds(d: Hysteria2View, n: int, m: int) -> (i: int)
    requires
        0 <= m < n <= 8,
        d.field_value(m) is Some,
    ensures
        0 <= i < d.fragments_upto(n).len(),
        d.fragments_upto(n)[i] == fragment(query_key(m), d.field_value(m).unwrap()),
    decreases n,
{
    let before = d.fragments_upto(n - 1);
    if m == n - 1 {
        before.len() as int
    } else {
        lemma_upto_holds(d, n - 1, m)
    }
}

/// The query holds a fragment for a parameter exactly if the descriptor
/// gives that parameter a value: an absent field leaves no fragment, a
/// present one leaves its own.
pub proof fn lemma_mentions_iff_present(d: Hysteria2View, n: int)
    requires
        0 <= n < 8,
    ensures
        d.mentions(query_key(n)) <==> d.field_value(n) is Some,
{
    lemma_fragments_unfold(d);
    let all = d.fragments();
    if d.mentions(query_key(n)) {
        let i = choose|i: int| 0 <= i < all.len() && has_key(#[trigger] all[i], query_key(n));
        let m = lemma_upto_origin(d, 8, i);
        lemma_fragment_key(m, n, d.field_value(m).unwrap());
    }
    if d.field_value(n) is Some {
        let i = lemma_upto_holds(d, 8, n);
        lemma_fragment_key(n, n, d.field_value(n).unwrap());
        assert(has_key(all[i], query_key(n)));
    }
}

/// Each optional field that is absent leaves no fragment in the query, and
/// each one that is present leaves its own. With every optional field
/// absent the link has no query at all: `#` follows the port.
pub proof fn lemma_fragments_match_fields(d: Hysteria2View)
    ensures
        d.mentions("sni"@) <==> d.sni is Some,
        d.mentions("obfs"@) <==> d.obfs is Some,
        d.mentions("obfs-password"@) <==> d.obfs_password is Some,
        d.mentions("alpn"@) <==> d.alpn is Some,
        d.mentions("insecure"@) <==> d.skip_cert_verify is Some,
        d.mentions("pinSHA256"@) <==> d.fingerprint is Some,
        d.mentions("up"@) <==> d.up is Some,
        d.mentions("down"@) <==> d.down is Some,
        d.sni is None && d.obfs is None && d.obfs_password is None && d.alpn is None
            && d.skip_cert_verify is None && d.fingerprint is None && d.up is None && d.down
            is None ==> d.query() == Seq::<char>::empty() && d.tail() == "#"@ + percent_encode(
            d.name,
        ),
{
    lemma_mentions_iff_present(d, 0);
    lemma_mentions_iff_present(d, 1);
    lemma_mentions_iff_present(d, 2);
    lemma_mentions_iff_present(d, 3);
    lemma_mentions_iff_present(d, 4);
    lemma_mentions_iff_present(d, 5);
    lemma_mentions_iff_present(d, 6);
    lemma_mentions_iff_present(d, 7);
    assert(query_key(0) == "sni"@);
    assert(query_key(1) == "obfs"@);
    assert(query_key(2) == "obfs-password"@);
    assert(query_key(3) == "alpn"@);
    assert(query_key(4) == "insecure"@);
    assert(query_key(5) == "pinSHA256"@);
    assert(query_key(6) == "up"@);
    assert(query_key(7) == "down"@);
    if d.fragments().len() == 0 {
        assert(d.tail() =~= "#"@ + percent_encode(d.name));
    }
}

/// With every optional field present the query holds the eight fragments
/// in the order `sni`, `obfs`, `obfs-password`, `alpn`, `insecure`,
/// `pinSHA256`, `up`, `down`.
pub proof fn lemma_full_fragment_order(d: Hysteria2View)
    requires
        d.sni is Some,
        d.obfs is Some,
        d.obfs_password is Some,
        d.alpn is Some,
        d.skip_cert_verify is Some,
        d.fingerprint is Some,
        d.up is Some,
        d.down is Some,
    ensures
        d.fragments() == seq![
            fragment("sni"@, d.sni.unwrap()),
            fragment("obfs"@, d.obfs.unwrap()),
            fragment("obfs-password"@, d.obfs_password.unwrap()),
            fragment("alpn"@, alpn_text(d.alpn.unwrap())),
            fragment("insecure"@, flag_text(d.skip_cert_verify.unwrap())),
            fragment("pinSHA256"@, d.fingerprint.unwrap()),
            fragment("up"@, d.up.unwrap()),
            fragment("down"@, d.down.unwrap()),
        ],
{
    assert(d.fragments() =~= seq![
        fragment("sni"@, d.sni.unwrap()),
        fragment("obfs"@, d.obfs.unwrap()),
        fragment("obfs-password"@, d.obfs_password.unwrap()),
        fragment("alpn"@, alpn_text(d.alpn.unwrap())),
        fragment("insecure"@, flag_text(d.skip_cert_verify.unwrap())),
        fragment("pinSHA256"@, d.fingerprint.unwrap()),
        fragment("up"@, d.up.unwrap()),
        fragment("down"@, d.down.unwrap()),
    ]);
}

/// With every optional field present the query is `?` and then the eight
/// fragments in their fixed order with `&` between each two.
pub proof fn lemma_full_query_order(d: Hysteria2View)
    requires
        d.sni is Some,
        d.obfs is Some,
        d.obfs_password is Some,
        d.alpn is Some,
        d.skip_cert_verify is Some,
        d.fingerprint is Some,
        d.up is Some,
        d.down is Some,
    ensures
        d.query() == "?"@ + (fragment("sni"@, d.sni.unwrap()) + "&"@ + fragment(
            "obfs"@,
            d.obfs.unwrap(),
        ) + "&"@ + fragment("obfs-password"@, d.obfs_password.unwrap()) + "&"@ + fragment(
            "alpn"@,
            alpn_text(d.alpn.unwrap()),
        ) + "&"@ + fragment("insecure"@, flag_text(d.skip_cert_verify.unwrap())) + "&"@
            + fragment("pinSHA256"@, d.fingerprint.unwrap()) + "&"@ + fragment(
            "up"@,
            d.up.unwrap(),
        ) + "&"@ + fragment("down"@, d.down.unwrap())),
{
    lemma_full_fragment_order(d);
    let f0 = fragment("sni"@, d.sni.unwrap());
    let f1 = fragment("obfs"@, d.obfs.unwrap());
    let f2 = fragment("obfs-password"@, d.obfs_password.unwrap());
    let f3 = fragment("alpn"@, alpn_text(d.alpn.unwrap()));
    let f4 = fragment("insecure"@, flag_text(d.skip_cert_verify.unwrap()));
    let f5 = fragment("pinSHA256"@, d.fingerprint.unwrap());
    let f6 = fragment("up"@, d.up.unwrap());
    let f7 = fragment("down"@, d.down.unwrap());
    let amp = "&"@;
    let none = Seq::<Seq<char>>::empty();
    lemma_join_text_push(none, f0, amp);
    lemma_join_text_push(none.push(f0), f1, amp);
    lemma_join_text_push(none.push(f0).push(f1), f2, amp);
    lemma_join_text_push(none.push(f0).push(f1).push(f2), f3, amp);
    lemma_join_text_push(none.push(f0).push(f1).push(f2).push(f3), f4, amp);
    lemma_join_text_push(none.push(f0).push(f1).push(f2).push(f3).push(f4), f5, amp);
    lemma_join_text_push(none.push(f0).push(f1).push(f2).push(f3).push(f4).push(f5), f6, amp);
    lemma_join_text_push(
        none.push(f0).push(f1).push(f2).push(f3).push(f4).push(f5).push(f6),
        f7,
        amp,
    );
    assert(d.fragments() =~= none.push(f0).push(f1).push(f2).push(f3).push(f4).push(f5).push(
        f6,
    ).push(f7));
}

/// Draws an index below `len`.
///
/// Calls `rand::random_range` on the range `0..len` with the thread-local
/// generator. That function panics on an empty range, which the
/// precondition rules out. Nothing is claimed of the outcome but that it
/// lies in the range.
#[verifier::external_body]
fn random_index(len: usize) -> (i: usize)
    requires
        len > 0,
    ensures
        i < len,
{
    rand::random_range(0..len)
}

impl Hysteria2 {
    /// The ports that a rendering of this descriptor may use, or the reason
    /// why there is none.
    pub fn port_candidates(&self) -> (r: Result<Vec<u16>, RenderError>)
        ensures
            match r {
                Ok(pool) => self@.port_error() is None && self@.candidates() == Some(pool@)
                    && pool@.len() > 0,
                Err(e) => self@.port_error() == Some(e),
            },
    {
        match self.port {
            Some(port) => {
                let mut pool: Vec<u16> = Vec::new();
                pool.push(port);
                assert(pool@ =~= seq![port]);
                Ok(pool)
            },
            None => match &self.ports {
                None => Err(RenderError::MissingPort),
                Some(expr) => match parse_ports(expr.as_str()) {
                    None => Err(RenderError::InvalidPorts),
                    Some(pool) => if pool.len() == 0 {
                        Err(RenderError::NoCandidates)
                    } else {
                        Ok(pool)
                    },
                },
            },
        }
    }

    /// The query fragments of the link, one string each.
    fn query_fragments(&self) -> (r: Vec<String>)
        ensures
            r.deep_view() == self@.fragments(),
    {
        let mut fragments: Vec<String> = Vec::new();
        assert(fragments.deep_view() =~= Seq::<Seq<char>>::empty());
        let alpn: Option<String> = match &self.alpn {
            Some(list) => Some(encode_alpn(list)),
            None => None,
        };
        let insecure: Option<String> = match self.skip_cert_verify {
            Some(true) => Some("1".to_owned()),
            Some(false) => Some("0".to_owned()),
            None => None,
        };
        assert(alpn.deep_view() == self@.alpn_value());
        assert(insecure.deep_view() == self@.insecure_value());
        param("sni").apply_optional(&self.sni, &mut fragments);
        param("obfs").apply_optional(&self.obfs, &mut fragments);
        param("obfs-password").apply_optional(&self.obfs_password, &mut fragments);
        param("alpn").apply_optional(&alpn, &mut fragments);
        param("insecure").apply_optional(&insecure, &mut fragments);
        param("pinSHA256").apply_optional(&self.fingerprint, &mut fragments);
        param("up").apply_optional(&self.up, &mut fragments);
        param("down").apply_optional(&self.down, &mut fragments);
        assert(fragments.deep_view() =~= self@.fragments());
        fragments
    }

    /// Renders the link of this descriptor for the port `port`.
    pub fn render_with_port(&self, port: u16) -> (r: String)
        ensures
            r@ == self@.uri(port),
    {
        let fragments = self.query_fragments();
        let mut out = String::new();
        out.append("hysteria2://");
        out.append(self.password.as_str());
        out.append("@");
        out.append(self.server.as_str());
        out.append(":");
        assert(out@ =~= self@.head());
        append_port(&mut out, port);
        let ghost before_query = out@;
        if fragments.len() > 0 {
            let joined = join(&fragments, "&");
            out.append("?");
            out.append(joined.as_str());
        }
        assert(out@ =~= before_query + self@.query());
        let name = encode_name(self.name.as_str());
        out.append("#");
        out.append(name.as_str());
        assert(out@ =~= self@.uri(port));
        out
    }

    /// Renders the descriptor as a link.
    ///
    /// A descriptor with a fixed port always renders to the same link. One
    /// without renders to the link for a port drawn at random from the pool
    /// of its port expression, and fails if it has no such expression, if the
    /// expression is malformed, or if it stands for no port.
    pub fn into_string(self) -> (r: Result<String, RenderError>)
        ensures
            match r {
                Ok(text) => self@.port_error() is None && self@.renders_to(text@),
                Err(e) => self@.port_error() == Some(e),
            },
            self@.port matches Some(port) ==> r matches Ok(text) && text@ == self@.uri(port),
    {
        match self.port_candidates() {
            Err(e) => Err(e),
            Ok(pool) => {
                let index = random_index(pool.len());
                let port = pool[index];
                let text = self.render_with_port(port);
                proof {
                    let candidates = self@.candidates().unwrap();
                    assert(candidates == pool@);
                    assert(0 <= index < candidates.len() && text@ == self@.uri(
                        candidates[index as int],
                    ));
                }
                Ok(text)
            },
        }
    }
}

} // verus!
