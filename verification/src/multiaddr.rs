//! Multi-hop addresses: an ordered list of segments, each a protocol tag and
//! an opaque payload, with the text form `/protocol/payload/protocol/payload`.

use crate::error::{Error, Kind};
use crate::text::{chars_of, find_char, text_eq};
use vstd::prelude::*;

verus! {

/// The protocols that a segment can be tagged with.
#[derive(Clone, Copy, Debug, PartialEq, Eq, Structural, Hash)]
pub enum Protocol {
    DnsAddr,
    Ip4,
    Ip6,
    Node,
    Project,
    Secure,
    Service,
    Space,
    Tcp,
    Worker,
}

impl Protocol {
    /// The name under which the protocol appears in the text form.
    pub open spec fn spec_prefix(self) -> Seq<char> {
        match self {
            Protocol::DnsAddr => "dnsaddr"@,
            Protocol::Ip4 => "ip4"@,
            Protocol::Ip6 => "ip6"@,
            Protocol::Node => "node"@,
            Protocol::Project => "project"@,
            Protocol::Secure => "secure"@,
            Protocol::Service => "service"@,
            Protocol::Space => "space"@,
            Protocol::Tcp => "tcp"@,
            Protocol::Worker => "worker"@,
        }
    }

    /// The name under which the protocol appears in the text form.
    pub fn prefix(self) -> (s: &'static str)
        ensures
            s@ == self.spec_prefix(),
    {
        match self {
            Protocol::DnsAddr => "dnsaddr",
            Protocol::Ip4 => "ip4",
            Protocol::Ip6 => "ip6",
            Protocol::Node => "node",
            Protocol::Project => "project",
            Protocol::Secure => "secure",
            Protocol::Service => "service",
            Protocol::Space => "space",
            Protocol::Tcp => "tcp",
            Protocol::Worker => "worker",
        }
    }

    /// The protocol that goes by `name`, if there is one.
    pub fn from_prefix(name: &str) -> (p: Option<Protocol>)
        ensures
            match p {
                Some(q) => q.spec_prefix() == name@,
                None => forall|q: Protocol| q.spec_prefix() != name@,
            },
    {
        if text_eq(name, "dnsaddr") {
            Some(Protocol::DnsAddr)
        } else if text_eq(name, "ip4") {
            Some(Protocol::Ip4)
        } else if text_eq(name, "ip6") {
            Some(Protocol::Ip6)
        } else if text_eq(name, "node") {
            Some(Protocol::Node)
        } else if text_eq(name, "project") {
            Some(Protocol::Project)
        } else if text_eq(name, "secure") {
            Some(Protocol::Secure)
        } else if text_eq(name, "service") {
            Some(Protocol::Service)
        } else if text_eq(name, "space") {
            Some(Protocol::Space)
        } else if text_eq(name, "tcp") {
            Some(Protocol::Tcp)
        } else if text_eq(name, "worker") {
            Some(Protocol::Worker)
        } else {
            None
        }
    }
}

/// Whether `s` is free of the separator `/`.
pub open spec fn no_slash(s: Seq<char>) -> bool {
    forall|i: int| 0 <= i < s.len() ==> s[i] != '/'
}

/// Every protocol name is non-empty and free of `/`, and no two protocols
/// share a name.
pub proof fn lemma_prefixes()
    ensures
        forall|p: Protocol| #[trigger] p.spec_prefix().len() > 0 && no_slash(p.spec_prefix()),
        forall|p: Protocol, q: Protocol|
            #[trigger] p.spec_prefix() == #[trigger] q.spec_prefix() ==> p == q,
{
    reveal_strlit("dnsaddr");
    reveal_strlit("ip4");
    reveal_strlit("ip6");
    reveal_strlit("node");
    reveal_strlit("project");
    reveal_strlit("secure");
    reveal_strlit("service");
    reveal_strlit("space");
    reveal_strlit("tcp");
    reveal_strlit("worker");
    assert forall|p: Protocol, q: Protocol|
        #[trigger] p.spec_prefix() == #[trigger] q.spec_prefix() implies p == q by {
        let a = p.spec_prefix();
        let b = q.spec_prefix();
        if p != q {
            assert(a.len() != b.len() || a[0] != b[0] || a[2] != b[2]);
        }
    }
}

/// One segment of an address.
#[derive(Debug, PartialEq, Eq)]
pub struct Segment {
    pub protocol: Protocol,
    pub value: String,
}

/// What a segment stands for: its protocol and the characters of its payload.
pub struct SegmentView {
    pub protocol: Protocol,
    pub value: Seq<char>,
}

impl View for Segment {
    type V = SegmentView;

    open spec fn view(&self) -> SegmentView {
        SegmentView { protocol: self.protocol, value: self.value@ }
    }
}

/// The text of one segment: `/`, the protocol name, `/`, the payload.
pub open spec fn segment_text(seg: SegmentView) -> Seq<char> {
    seq!['/'] + seg.protocol.spec_prefix() + seq!['/'] + seg.value
}

/// The text of an address: the texts of its segments, in order.
pub open spec fn text_of(segs: Seq<SegmentView>) -> Seq<char>
    decreases segs.len(),
{
    if segs.len() == 0 {
        Seq::empty()
    } else {
        segment_text(segs[0]) + text_of(segs.skip(1))
    }
}

/// Segments whose payloads are free of `/`: the ones that have a text form
/// from which they can be read back.
pub open spec fn valid_segments(segs: Seq<SegmentView>) -> bool {
    forall|i: int| 0 <= i < segs.len() ==> no_slash(#[trigger] segs[i].value)
}

/// Whether some segment of `segs` is tagged with `protocol`.
pub open spec fn has_protocol(segs: Seq<SegmentView>, protocol: Protocol) -> bool {
    exists|i: int| 0 <= i < segs.len() && #[trigger] segs[i].protocol == protocol
}

/// Whether `t` is the text of some address.
pub open spec fn is_address_text(t: Seq<char>) -> bool {
    exists|segs: Seq<SegmentView>| valid_segments(segs) && #[trigger] text_of(segs) == t
}

/// Appending a segment appends its text.
pub proof fn lemma_text_push(segs: Seq<SegmentView>, last: SegmentView)
    ensures
        text_of(segs.push(last)) == text_of(segs) + segment_text(last),
    decreases segs.len(),
{
    if segs.len() == 0 {
        let one = segs.push(last);
        assert(one.skip(1) =~= Seq::<SegmentView>::empty());
        assert(text_of(one.skip(1)) =~= Seq::<char>::empty());
        assert(text_of(one) == segment_text(one[0]) + text_of(one.skip(1)));
        assert(text_of(one) =~= text_of(segs) + segment_text(last));
    } else {
        let longer = segs.push(last);
        assert(longer.skip(1) =~= segs.skip(1).push(last));
        lemma_text_push(segs.skip(1), last);
        assert(longer[0] == segs[0]);
        assert(text_of(longer) == segment_text(segs[0]) + text_of(longer.skip(1)));
        assert(text_of(segs) == segment_text(segs[0]) + text_of(segs.skip(1)));
        assert(text_of(longer) =~= text_of(segs) + segment_text(last));
    }
}

/// How the text of a non-empty address begins: the first segment can be read
/// off it, and what follows is the text of the remaining segments.
pub proof fn lemma_first_segment(segs: Seq<SegmentView>)
    requires
        valid_segments(segs),
        segs.len() > 0,
    ensures
        ({
            let t = text_of(segs);
            let k: int = segs[0].protocol.spec_prefix().len() as int + 1;
            let e: int = k + 1 + segs[0].value.len();
            &&& t.len() >= e
            &&& t[0] == '/'
            &&& t[k] == '/'
            &&& t.subrange(1, k) == segs[0].protocol.spec_prefix()
            &&& forall|j: int| 1 <= j < k ==> t[j] != '/'
            &&& t.subrange(k + 1, e) == segs[0].value
            &&& forall|j: int| k + 1 <= j < e ==> t[j] != '/'
            &&& (t.len() == e || t[e] == '/')
            &&& text_of(segs.skip(1)) == t.subrange(e, t.len() as int)
        }),
{
    lemma_prefixes();
    let t = text_of(segs);
    let p = segs[0].protocol.spec_prefix();
    let v = segs[0].value;
    let rest = text_of(segs.skip(1));
    let k: int = p.len() as int + 1;
    let e: int = k + 1 + v.len();
    assert(t == seq!['/'] + p + seq!['/'] + v + rest);
    assert(no_slash(v));
    assert(t.subrange(1, k) =~= p);
    assert(t.subrange(k + 1, e) =~= v);
    assert(t.subrange(e, t.len() as int) =~= rest);
    assert forall|j: int| 1 <= j < k implies t[j] != '/' by {
        assert(t[j] == p[j - 1]);
    }
    assert forall|j: int| k + 1 <= j < e implies t[j] != '/' by {
        assert(t[j] == v[j - k - 1]);
    }
    if segs.skip(1).len() > 0 {
        assert(rest == segment_text(segs.skip(1)[0]) + text_of(segs.skip(1).skip(1)));
        assert(rest[0] == '/');
        assert(t[e] == rest[0]);
    }
}

/// Two addresses with the same text are the same address.
pub proof fn lemma_text_injective(a: Seq<SegmentView>, b: Seq<SegmentView>)
    requires
        valid_segments(a),
        valid_segments(b),
        text_of(a) == text_of(b),
    ensures
        a == b,
    decreases a.len(),
{
    if a.len() == 0 {
        if b.len() > 0 {
            lemma_first_segment(b);
        }
        assert(a =~= b);
    } else {
        lemma_first_segment(a);
        assert(b.len() > 0);
        lemma_first_segment(b);
        lemma_prefixes();
        let t = text_of(a);
        let ka: int = a[0].protocol.spec_prefix().len() as int + 1;
        let kb: int = b[0].protocol.spec_prefix().len() as int + 1;
        assert(ka == kb) by {
            if ka < kb {
                assert(t[ka] == '/');
            } else if kb < ka {
                assert(t[kb] == '/');
            }
        }
        let ea: int = ka + 1 + a[0].value.len();
        let eb: int = kb + 1 + b[0].value.len();
        assert(ea == eb) by {
            if ea < eb {
                assert(t[ea] == '/');
            } else if eb < ea {
                assert(t[eb] == '/');
            }
        }
        assert(a[0] == b[0]);
        lemma_text_injective(a.skip(1), b.skip(1));
        assert(a =~= seq![a[0]] + a.skip(1));
        assert(b =~= seq![b[0]] + b.skip(1));
    }
}

/// Whether `r` is the first index at or after `from` at which `t` holds a
/// `/`, or the length of `t` where there is none.
pub open spec fn first_slash(t: Seq<char>, from: int, r: int) -> bool {
    &&& 0 <= from <= r <= t.len()
    &&& forall|j: int| from <= j < r ==> t[j] != '/'
    &&& r < t.len() ==> t[r] == '/'
}

/// Whether every address with text `t` has at least `count` segments, the
/// rest of which spell `t` from index `pos` on.
pub open spec fn reads_from(t: Seq<char>, pos: int, count: nat) -> bool {
    forall|segs: Seq<SegmentView>|
        valid_segments(segs) && #[trigger] text_of(segs) == t ==> segs.len() >= count && text_of(
            segs.skip(count as int),
        ) == t.subrange(pos, t.len() as int)
}

proof fn lemma_reads_from_start(t: Seq<char>)
    ensures
        reads_from(t, 0, 0),
{
    assert forall|segs: Seq<SegmentView>|
        valid_segments(segs) && #[trigger] text_of(segs) == t implies segs.len() >= 0 && text_of(
        segs.skip(0),
    ) == t.subrange(0, t.len() as int) by {
        assert(segs.skip(0) =~= segs);
        assert(t.subrange(0, t.len() as int) =~= t);
    }
}

/// A piece of what is left of `t` from `pos` on is a piece of `t`.
proof fn lemma_tail_subrange(t: Seq<char>, pos: int, a: int, b: int)
    requires
        0 <= pos <= t.len(),
        0 <= a <= b <= t.len() - pos,
    ensures
        t.subrange(pos, t.len() as int).subrange(a, b) == t.subrange(pos + a, pos + b),
{
    assert(t.subrange(pos, t.len() as int).subrange(a, b) =~= t.subrange(pos + a, pos + b));
}

/// Where the rest of an address spells `t` from `pos` on and is not empty,
/// the first of the remaining segments stands at `pos`: its name ends at the
/// first `/` after `pos`, and its payload at the one after that.
proof fn lemma_segment_at(t: Seq<char>, pos: int, rest: Seq<SegmentView>, k: int)
    requires
        valid_segments(rest),
        0 <= pos < t.len(),
        text_of(rest) == t.subrange(pos, t.len() as int),
        t[pos] == '/' ==> first_slash(t, pos + 1, k),
    ensures
        rest.len() > 0,
        t[pos] == '/',
        k == pos + 1 + rest[0].protocol.spec_prefix().len(),
        k < t.len(),
        t.subrange(pos + 1, k) == rest[0].protocol.spec_prefix(),
        first_slash(t, k + 1, k + 1 + rest[0].value.len()),
        text_of(rest.skip(1)) == t.subrange(k + 1 + rest[0].value.len(), t.len() as int),
{
    let tail = t.subrange(pos, t.len() as int);
    assert(tail.len() > 0);
    assert(rest.len() > 0);
    lemma_first_segment(rest);
    let kk: int = rest[0].protocol.spec_prefix().len() as int + 1;
    let ee: int = kk + 1 + rest[0].value.len();
    assert(tail[0] == t[pos]);
    assert(tail[kk] == t[pos + kk]);
    if k < pos + kk {
        assert(tail[k - pos] == t[k]);
    }
    assert(pos + kk == k);
    lemma_tail_subrange(t, pos, 1, kk);
    lemma_tail_subrange(t, pos, ee, tail.len() as int);
    assert forall|j: int| k + 1 <= j < pos + ee implies t[j] != '/' by {
        assert(tail[j - pos] == t[j]);
    }
    if tail.len() > ee {
        assert(tail[ee] == t[pos + ee]);
    }
}

/// Where the text at `pos` does not start a segment, `t` is no address text.
proof fn lemma_no_segment_here(t: Seq<char>, pos: int, count: nat, k: int)
    requires
        reads_from(t, pos, count),
        0 <= pos < t.len(),
        t[pos] == '/' ==> first_slash(t, pos + 1, k),
        t[pos] == '/' && k < t.len() ==> forall|q: Protocol|
            q.spec_prefix() != t.subrange(pos + 1, k),
    ensures
        !is_address_text(t),
{
    assert forall|segs: Seq<SegmentView>| valid_segments(segs) implies #[trigger] text_of(segs)
        != t by {
        if text_of(segs) == t {
            lemma_segment_at(t, pos, segs.skip(count as int), k);
        }
    }
}

/// Where the text at `pos` starts a segment that ends before `e`, every
/// address with text `t` holds that segment next.
proof fn lemma_segment_here(t: Seq<char>, pos: int, count: nat, k: int, e: int)
    requires
        reads_from(t, pos, count),
        0 <= pos < t.len(),
        first_slash(t, pos + 1, k),
        k < t.len(),
        first_slash(t, k + 1, e),
    ensures
        reads_from(t, e, count + 1),
{
    assert forall|segs: Seq<SegmentView>|
        valid_segments(segs) && #[trigger] text_of(segs) == t implies segs.len() >= count + 1
        && text_of(segs.skip(count as int + 1)) == t.subrange(e, t.len() as int) by {
        let rest = segs.skip(count as int);
        lemma_segment_at(t, pos, rest, k);
        let ee: int = k + 1 + rest[0].value.len();
        if e < ee {
            assert(t[e] == '/');
        } else if ee < e {
            assert(t[ee] == '/');
        }
        assert(rest.skip(1) =~= segs.skip(count as int + 1));
    }
}

/// The text of one segment, as it stands in a longer text.
proof fn lemma_segment_text_here(t: Seq<char>, pos: int, k: int, e: int, seg: SegmentView)
    requires
        0 <= pos < k < e <= t.len(),
        t[pos] == '/',
        t[k] == '/',
        t.subrange(pos + 1, k) == seg.protocol.spec_prefix(),
        t.subrange(k + 1, e) == seg.value,
    ensures
        segment_text(seg) == t.subrange(pos, e),
        t.subrange(0, pos) + t.subrange(pos, e) == t.subrange(0, e),
{
    assert(t.subrange(pos, e) =~= seq![t[pos]] + t.subrange(pos + 1, k) + seq![t[k]] + t.subrange(
        k + 1,
        e,
    ));
    assert(t.subrange(0, pos) + t.subrange(pos, e) =~= t.subrange(0, e));
}

/// An address of several hops.
#[derive(Debug, PartialEq, Eq)]
pub struct MultiAddr {
    segments: Vec<Segment>,
}

impl View for MultiAddr {
    type V = Seq<SegmentView>;

    closed spec fn view(&self) -> Seq<SegmentView> {
        self.segments@.map_values(|s: Segment| s@)
    }
}

/// The message of the failure that `MultiAddr::from_str` reports.
pub open spec fn invalid_address_message() -> Seq<char> {
    "invalid address: expected a sequence of /protocol/value pairs with known protocols"@
}

impl MultiAddr {
    /// The invariant of an address: no payload holds a `/`.
    pub open spec fn wf(&self) -> bool {
        valid_segments(self@)
    }

    /// The address without segments.
    pub fn new() -> (m: MultiAddr)
        ensures
            m.wf(),
            m@ == Seq::<SegmentView>::empty(),
    {
        let m = MultiAddr { segments: Vec::new() };
        assert(m@ =~= Seq::<SegmentView>::empty());
        m
    }

    /// The number of segments.
    pub fn len(&self) -> (n: usize)
        ensures
            n == self@.len(),
    {
        self.segments.len()
    }

    /// The protocol of segment `i`.
    pub fn protocol_at(&self, i: usize) -> (p: Protocol)
        requires
            i < self@.len(),
        ensures
            p == self@[i as int].protocol,
    {
        self.segments[i].protocol
    }

    /// The payload of segment `i`.
    pub fn value_at(&self, i: usize) -> (v: &str)
        requires
            i < self@.len(),
        ensures
            v@ == self@[i as int].value,
    {
        self.segments[i].value.as_str()
    }

    /// Appends segment `i` of `other`.
    pub fn push_back_value(&mut self, other: &MultiAddr, i: usize)
        requires
            old(self).wf(),
            other.wf(),
            i < other@.len(),
        ensures
            final(self).wf(),
            final(self)@ == old(self)@.push(other@[i as int]),
    {
        let ghost before = self@;
        let segment = Segment {
            protocol: other.segments[i].protocol,
            value: other.segments[i].value.clone(),
        };
        assert(segment@ == other@[i as int]);
        self.segments.push(segment);
        assert(self@ =~= before.push(other@[i as int]));
    }

    /// Appends the segments of `other`, in their order.
    pub fn try_extend(&mut self, other: &MultiAddr)
        requires
            old(self).wf(),
            other.wf(),
        ensures
            final(self).wf(),
            final(self)@ == old(self)@ + other@,
    {
        let mut i: usize = 0;
        assert(self@ + other@.take(0) =~= self@);
        while i < other.len()
            invariant
                i <= other@.len(),
                self.wf(),
                other.wf(),
                self@ == old(self)@ + other@.take(i as int),
            decreases other@.len() - i,
        {
            self.push_back_value(other, i);
            assert(old(self)@ + other@.take(i + 1) =~= (old(self)@ + other@.take(i as int)).push(
                other@[i as int],
            ));
            i = i + 1;
        }
        assert(other@.take(i as int) =~= other@);
    }

    /// Appends a segment. A payload that holds a `/` is refused, and the
    /// address stays as it was.
    pub fn push_back(&mut self, protocol: Protocol, value: &str) -> (r: Result<(), Error>)
        requires
            old(self).wf(),
        ensures
            final(self).wf(),
            match r {
                Ok(_) => no_slash(value@) && final(self)@ == old(self)@.push(
                    SegmentView { protocol, value: value@ },
                ),
                Err(e) => !no_slash(value@) && final(self)@ == old(self)@ && e.kind
                    == Kind::BadRequest,
            },
    {
        let chars = chars_of(value);
        let at = find_char(&chars, '/', 0);
        if at < chars.len() {
            return Err(Error::new(Kind::BadRequest, "a segment payload cannot contain '/'"));
        }
        let ghost before = self@;
        self.segments.push(Segment { protocol, value: value.to_owned() });
        assert(self@ =~= before.push(SegmentView { protocol, value: value@ }));
        Ok(())
    }

    /// Whether the segments from index `start` on begin with the protocols
    /// `protocols`, in that order.
    pub fn matches(&self, start: usize, protocols: &[Protocol]) -> (b: bool)
        ensures
            b == (start + protocols@.len() <= self@.len() && forall|i: int|
                0 <= i < protocols@.len() ==> self@[start + i].protocol == protocols@[i]),
    {
        let n = self.segments.len();
        if start > n || protocols.len() > n - start {
            return false;
        }
        let mut i: usize = 0;
        while i < protocols.len()
            invariant
                i <= protocols@.len(),
                n == self@.len(),
                start + protocols@.len() <= n,
                forall|j: int| 0 <= j < i ==> self@[start + j].protocol == protocols@[j],
            decreases protocols.len() - i,
        {
            if self.segments[start + i].protocol != protocols[i] {
                return false;
            }
            i = i + 1;
        }
        true
    }

    /// Whether some segment is tagged with `protocol`.
    pub fn contains_protocol(&self, protocol: Protocol) -> (b: bool)
        ensures
            b == has_protocol(self@, protocol),
    {
        let mut i: usize = 0;
        while i < self.segments.len()
            invariant
                i <= self@.len(),
                self@.len() == self.segments@.len(),
                forall|j: int| 0 <= j < i ==> self@[j].protocol != protocol,
            decreases self.segments.len() - i,
        {
            if self.segments[i].protocol == protocol {
                assert(self@[i as int].protocol == protocol);
                return true;
            }
            i = i + 1;
        }
        false
    }

    /// The text form of the address.
    pub fn to_string(&self) -> (s: String)
        ensures
            s@ == text_of(self@),
    {
        let mut out = String::new();
        let mut i: usize = 0;
        assert(self@.take(0) =~= Seq::<SegmentView>::empty());
        while i < self.segments.len()
            invariant
                i <= self@.len(),
                self@.len() == self.segments@.len(),
                out@ == text_of(self@.take(i as int)),
            decreases self.segments.len() - i,
        {
            let ghost before = out@;
            proof {
                reveal_strlit("/");
                lemma_text_push(self@.take(i as int), self@[i as int]);
                assert(self@.take(i as int).push(self@[i as int]) =~= self@.take(i + 1));
            }
            out.append("/");
            out.append(self.segments[i].protocol.prefix());
            out.append("/");
            out.append(self.segments[i].value.as_str());
            assert("/"@ =~= seq!['/']);
            assert(out@ =~= before + segment_text(self@[i as int]));
            i = i + 1;
        }
        assert(self@.take(i as int) =~= self@);
        out
    }

    /// Reads an address from its text form. Succeeds exactly on the texts of
    /// addresses, and returns the one address that has the given text.
    pub fn from_str(s: &str) -> (r: Result<MultiAddr, Error>)
        ensures
            match r {
                Ok(m) => m.wf() && text_of(m@) == s@,
                Err(e) => !is_address_text(s@) && e.kind == Kind::BadRequest && e.message@
                    == invalid_address_message(),
            },
    {
        let chars = chars_of(s);
        let n = chars.len();
        let mut segments: Vec<Segment> = Vec::new();
        let mut pos: usize = 0;
        proof {
            lemma_reads_from_start(s@);
            assert(s@.subrange(0, 0) =~= Seq::<char>::empty());
        }
        while pos < n
            invariant
                chars@ == s@,
                n == chars.len(),
                pos <= n,
                valid_segments(segments@.map_values(|x: Segment| x@)),
                text_of(segments@.map_values(|x: Segment| x@)) == s@.subrange(0, pos as int),
                reads_from(s@, pos as int, segments@.len()),
            decreases n - pos,
        {
            let ghost parsed = segments@.map_values(|x: Segment| x@);
            let slash_ok = chars[pos] == '/';
            let k = if slash_ok {
                find_char(&chars, '/', pos + 1)
            } else {
                n
            };
            let name = if k < n {
                Protocol::from_prefix(s.substring_char(pos + 1, k))
            } else {
                None
            };
            match name {
                None => {
                    proof {
                        lemma_no_segment_here(s@, pos as int, segments@.len(), k as int);
                    }
                    return Err(
                        Error::new(
                            Kind::BadRequest,
                            "invalid address: expected a sequence of /protocol/value pairs with known protocols",
                        ),
                    );
                },
                Some(protocol) => {
                    let e = find_char(&chars, '/', k + 1);
                    let value = s.substring_char(k + 1, e).to_owned();
                    let ghost seg = SegmentView { protocol, value: value@ };
                    proof {
                        lemma_text_push(parsed, seg);
                        lemma_segment_text_here(s@, pos as int, k as int, e as int, seg);
                        lemma_segment_here(
                            s@,
                            pos as int,
                            segments@.len(),
                            k as int,
                            e as int,
                        );
                        assert(segments@.push(Segment { protocol, value }).map_values(
                            |x: Segment| x@,
                        ) =~= parsed.push(seg));
                    }
                    segments.push(Segment { protocol, value });
                    pos = e;
                },
            }
        }
        assert(s@.subrange(0, pos as int) =~= s@);
        Ok(MultiAddr { segments })
    }
}

} // verus!
