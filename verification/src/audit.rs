//! The audit journal: a chain of hashed events.
//!
//! Every step of self-modification is recorded in a chain in which each link names the
//! hash of the one before. Without a key the chain shows corruption; with a key each
//! link is an HMAC, and the chain cannot be rewritten without the key.

use vstd::prelude::*;
use vstd::utf8::encode_utf8;

use crate::json::{array_json, empty_obj, json_array, print, Json, ToJson, Value};
use crate::sha256::{digest_hex, hmac, hmac_sha256_hex, key_as_block, key_block, sha256_hex};
use crate::text::{decimal, decimal_text, hex, law_decimal_writes_the_number, law_hex_writes_the_bytes, same_text};

verus! {

/// The head of an empty chain.
pub const GENESIS: &'static str = "GENESIS";

/// One audited step. The measures are kept as their decimal texts with nine digits
/// after the point.
#[derive(Debug, Clone, PartialEq, Eq)]
pub struct AuditEvent {
    pub t: u64,
    pub si_global: String,
    pub si_safe: String,
    pub risk_global: String,
    pub max_rpn: String,
    pub most_critical: &'static str,
    /// A stable hash of the strategy that was applied.
    pub strategy_id: u64,
    pub p_eff: String,
}

impl AuditEvent {
    /// The canonical text of the step.
    pub open spec fn text(&self) -> Seq<char> {
        "t="@ + decimal(self.t as nat) + ";si="@ + self.si_global@ + ";safe="@ + self.si_safe@ + ";risk="@ + self.risk_global@
            + ";rpn="@ + self.max_rpn@ + ";crit="@ + self.most_critical@ + ";strat="@ + decimal(self.strategy_id as nat)
            + ";peff="@ + self.p_eff@
    }

    pub fn payload(&self) -> (r: String)
        ensures
            r@ == self.text(),
    {
        let mut out = "t=".to_owned();
        out.append(decimal_text(self.t).as_str());
        out.append(";si=");
        out.append(self.si_global.as_str());
        out.append(";safe=");
        out.append(self.si_safe.as_str());
        out.append(";risk=");
        out.append(self.risk_global.as_str());
        out.append(";rpn=");
        out.append(self.max_rpn.as_str());
        out.append(";crit=");
        out.append(self.most_critical);
        out.append(";strat=");
        out.append(decimal_text(self.strategy_id).as_str());
        out.append(";peff=");
        out.append(self.p_eff.as_str());
        out
    }
}

/// One link of the chain.
#[derive(Debug, PartialEq, Eq)]
pub struct TraceEvent {
    pub sequence_number: u64,
    pub prev_hash: String,
    /// The hash of all the rest of the link.
    pub hash: String,
    pub event_type: String,
    pub payload: String,
}

impl Clone for TraceEvent {
    fn clone(&self) -> (r: Self)
        ensures
            r == *self,
    {
        TraceEvent {
            sequence_number: self.sequence_number,
            prev_hash: self.prev_hash.clone(),
            hash: self.hash.clone(),
            event_type: self.event_type.clone(),
            payload: self.payload.clone(),
        }
    }
}

/// One link over mathematical texts.
pub ghost struct Link {
    pub sequence_number: u64,
    pub prev_hash: Seq<char>,
    pub hash: Seq<char>,
    pub event_type: Seq<char>,
    pub payload: Seq<char>,
}

impl TraceEvent {
    pub open spec fn view(&self) -> Link {
        Link {
            sequence_number: self.sequence_number,
            prev_hash: self.prev_hash@,
            hash: self.hash@,
            event_type: self.event_type@,
            payload: self.payload@,
        }
    }
}

impl ToJson for TraceEvent {
    open spec fn json(&self) -> Value {
        empty_obj().with("sequence_number"@, Value::Num(decimal(self.sequence_number as nat))).with(
            "prev_hash"@,
            Value::Str(self.prev_hash@),
        ).with("hash"@, Value::Str(self.hash@)).with("event_type"@, Value::Str(self.event_type@)).with(
            "payload"@,
            Value::Str(self.payload@),
        )
    }

    fn to_json(&self) -> (r: Json) {
        let mut o = Json::obj();
        o.set("sequence_number", Json::num(self.sequence_number));
        o.set("prev_hash", Json::Str(self.prev_hash.clone()));
        o.set("hash", Json::Str(self.hash.clone()));
        o.set("event_type", Json::Str(self.event_type.clone()));
        o.set("payload", Json::Str(self.payload.clone()));
        o
    }
}

/// The links of a chain.
pub open spec fn links(events: Seq<TraceEvent>) -> Seq<Link> {
    events.map_values(|e: TraceEvent| e@)
}

/// What the hash of a link is taken over.
pub open spec fn link_text(prev_hash: Seq<char>, seq: u64, event_type: Seq<char>, payload: Seq<char>) -> Seq<char> {
    prev_hash + "|"@ + decimal(seq as nat) + "|"@ + event_type + "|"@ + payload
}

/// The hash of a link, signed where there is a key.
#[verifier::opaque]
pub open spec fn link_hash_of(
    key: Option<Seq<u8>>,
    prev_hash: Seq<char>,
    seq: u64,
    event_type: Seq<char>,
    payload: Seq<char>,
) -> Seq<char> {
    let bytes = encode_utf8(link_text(prev_hash, seq, event_type, payload));
    match key {
        Some(k) => hex(hmac(k, bytes)),
        None => digest_hex(bytes),
    }
}

impl Link {
    /// The recorded hash is that of the rest of the link.
    pub open spec fn is_sealed(&self, key: Option<Seq<u8>>) -> bool {
        self.hash == link_hash_of(key, self.prev_hash, self.sequence_number, self.event_type, self.payload)
    }
}

/// The hash of the last link.
pub open spec fn head_of(chain: Seq<Link>) -> Seq<char> {
    if chain.len() == 0 {
        GENESIS@
    } else {
        chain.last().hash
    }
}

/// Every link is sealed and names the hash of the one before.
pub open spec fn is_chain(key: Option<Seq<u8>>, chain: Seq<Link>) -> bool {
    forall|i: int|
        0 <= i < chain.len() ==> (#[trigger] chain[i]).is_sealed(key) && chain[i].prev_hash == head_of(chain.take(i))
}

/// The link that records a step at the end of a chain.
pub open spec fn next_link(key: Option<Seq<u8>>, chain: Seq<Link>, payload: Seq<char>) -> Link {
    Link {
        sequence_number: chain.len() as u64,
        prev_hash: head_of(chain),
        hash: link_hash_of(key, head_of(chain), chain.len() as u64, "rsi_step"@, payload),
        event_type: "rsi_step"@,
        payload,
    }
}

/// The chain that records steps one after the other.
pub open spec fn chain_of(key: Option<Seq<u8>>, payloads: Seq<Seq<char>>) -> Seq<Link>
    decreases payloads.len(),
{
    if payloads.len() == 0 {
        Seq::empty()
    } else {
        let front = chain_of(key, payloads.drop_last());
        front.push(next_link(key, front, payloads.last()))
    }
}

fn link_material(prev_hash: &str, seq: u64, event_type: &str, payload: &str) -> (r: String)
    ensures
        r@ == link_text(prev_hash@, seq, event_type@, payload@),
{
    let mut out = prev_hash.to_owned();
    out.append("|");
    out.append(decimal_text(seq).as_str());
    out.append("|");
    out.append(event_type);
    out.append("|");
    out.append(payload);
    out
}

/// The hash of a link of an unsigned chain.
pub fn link_hash(prev_hash: &str, seq: u64, event_type: &str, payload: &str) -> (r: String)
    ensures
        r@ == link_hash_of(None, prev_hash@, seq, event_type@, payload@),
{
    proof {
        reveal(link_hash_of);
    }
    sha256_hex(link_material(prev_hash, seq, event_type, payload).as_str().as_bytes())
}

/// Whether two digests are equal. Every byte is looked at, whatever the first
/// difference is.
pub fn ct_digest_eq(a: &str, b: &str) -> (r: bool)
    ensures
        r == (a@ == b@),
{
    let ab = a.as_bytes();
    let bb = b.as_bytes();
    proof {
        vstd::utf8::encode_utf8_decode_utf8(a@);
        vstd::utf8::encode_utf8_decode_utf8(b@);
    }
    let n: usize = ab.len();
    if n != bb.len() {
        return false;
    }
    let mut diff: u8 = 0;
    let mut i: usize = 0;
    while i < n
        invariant
            i <= n,
            n == ab@.len(),
            n == bb@.len(),
            diff == 0 <==> forall|j: int| 0 <= j < i ==> ab@[j] == bb@[j],
        decreases n - i,
    {
        let x: u8 = ab[i];
        let y: u8 = bb[i];
        let ghost before = diff;
        diff = diff | (x ^ y);
        assert((before | (x ^ y)) == 0 <==> before == 0 && x == y) by (bit_vector);
        i += 1;
        proof {
            if diff == 0 {
                assert forall|j: int| 0 <= j < i implies ab@[j] == bb@[j] by {}
            }
            if forall|j: int| 0 <= j < i ==> ab@[j] == bb@[j] {
                assert(ab@[i - 1] == bb@[i - 1]);
                assert forall|j: int| 0 <= j < i - 1 implies ab@[j] == bb@[j] by {}
            }
        }
    }
    proof {
        if diff == 0 {
            assert(ab@ =~= bb@);
        }
    }
    diff == 0
}

/// A journal that can be verified.
pub trait AuditLog {
    /// The number of events.
    spec fn count(&self) -> nat;

    /// The hash that stands for the whole journal.
    spec fn head_hash(&self) -> Seq<char>;

    /// The journal is as it was recorded.
    spec fn is_valid(&self) -> bool;

    /// Records an event and returns the new head.
    fn record(&mut self, event: &AuditEvent) -> (r: String)
        ensures
            final(self).count() == old(self).count() + 1,
            r@ == final(self).head_hash(),
            old(self).is_valid() ==> final(self).is_valid(),
    ;

    fn len(&self) -> (r: usize)
        ensures
            r == self.count(),
    ;

    fn is_empty(&self) -> (r: bool)
        ensures
            r == (self.count() == 0),
    ;

    fn head(&self) -> (r: String)
        ensures
            r@ == self.head_hash(),
    ;

    fn verify(&self) -> (r: bool)
        ensures
            r == self.is_valid(),
    ;
}

/// A key that signs links, as one block. It is overwritten with zeros at its end.
pub struct SigningKey {
    block: [u8; 64],
}

impl SigningKey {
    pub closed spec fn view(&self) -> Seq<u8> {
        self.block@
    }

    pub fn new(key: &[u8]) -> (r: Self)
        ensures
            r@ == key_block(key@),
    {
        let mut bytes = key_as_block(key);
        let mut block: [u8; 64] = [0u8; 64];
        let mut i: usize = 0;
        while i < 64
            invariant
                i <= 64,
                bytes@.len() == 64,
                block@.len() == 64,
                forall|j: int| 0 <= j < i ==> block@[j] == key_block(key@)[j],
                forall|j: int| i <= j < 64 ==> bytes@[j] == key_block(key@)[j],
            decreases 64 - i,
        {
            block[i] = bytes[i];
            bytes[i] = 0;
            i += 1;
        }
        assert(block@ =~= key_block(key@));
        SigningKey { block }
    }
}

impl Drop for SigningKey {
    fn drop(&mut self)
        ensures
            final(self)@ == Seq::new(64, |i: int| 0u8),
        opens_invariants none
        no_unwind
    {
        self.block = [
            0, 0, 0, 0, 0, 0, 0, 0, 0, 0, 0, 0, 0, 0, 0, 0,
            0, 0, 0, 0, 0, 0, 0, 0, 0, 0, 0, 0, 0, 0, 0, 0,
            0, 0, 0, 0, 0, 0, 0, 0, 0, 0, 0, 0, 0, 0, 0, 0,
            0, 0, 0, 0, 0, 0, 0, 0, 0, 0, 0, 0, 0, 0, 0, 0,
        ];
    }
}

/// A chain of hashed events, signed where it has a key.
pub struct HashChainLog {
    pub events: Vec<TraceEvent>,
    signing_key: Option<SigningKey>,
}

proof fn lemma_chain_push(key: Option<Seq<u8>>, chain: Seq<Link>, link: Link)
    requires
        is_chain(key, chain),
        link.is_sealed(key),
        link.prev_hash == head_of(chain),
    ensures
        is_chain(key, chain.push(link)),
{
    let longer = chain.push(link);
    assert forall|i: int| 0 <= i < longer.len() implies (#[trigger] longer[i]).is_sealed(key) && longer[i].prev_hash
        == head_of(longer.take(i)) by {
        assert(longer.take(i) =~= chain.take(i));
        if i < chain.len() {
            assert(chain[i].is_sealed(key));
        } else {
            assert(chain.take(i) =~= chain);
        }
    }
}

impl HashChainLog {
    /// The key that signs the links, as one block.
    pub closed spec fn key(&self) -> Option<Seq<u8>> {
        match self.signing_key {
            Some(k) => Some(k@),
            None => None,
        }
    }

    /// The recorded events.
    pub closed spec fn recorded(&self) -> Seq<TraceEvent> {
        self.events@
    }

    /// The recorded links.
    pub open spec fn chain(&self) -> Seq<Link> {
        links(self.recorded())
    }

    pub fn new() -> (r: Self)
        ensures
            r.key() is None,
            r.chain() == Seq::<Link>::empty(),
    {
        let r = HashChainLog { events: Vec::new(), signing_key: None };
        assert(r.chain() =~= Seq::empty());
        r
    }

    /// A signed journal.
    pub fn with_key(key: &[u8]) -> (r: Self)
        ensures
            r.key() == Some(key_block(key@)),
            r.chain() == Seq::<Link>::empty(),
    {
        let r = HashChainLog { events: Vec::new(), signing_key: Some(SigningKey::new(key)) };
        assert(r.chain() =~= Seq::empty());
        r
    }

    fn link(&self, prev_hash: &str, seq: u64, event_type: &str, payload: &str) -> (r: String)
        ensures
            r@ == link_hash_of(self.key(), prev_hash@, seq, event_type@, payload@),
    {
        proof {
            reveal(link_hash_of);
        }
        match &self.signing_key {
            Some(key) => hmac_sha256_hex(
                key.block.as_slice(),
                link_material(prev_hash, seq, event_type, payload).as_str().as_bytes(),
            ),
            None => link_hash(prev_hash, seq, event_type, payload),
        }
    }

    fn chain_head(&self) -> (r: String)
        ensures
            r@ == head_of(self.chain()),
    {
        let n: usize = self.events.len();
        if n == 0 {
            GENESIS.to_owned()
        } else {
            assert(self.chain()[n - 1] == self.events@[n - 1]@);
            self.events[n - 1].hash.clone()
        }
    }

    pub fn events(&self) -> (r: &[TraceEvent])
        ensures
            r@ == self.recorded(),
    {
        self.events.as_slice()
    }

    /// The events numbered from `from` up to `to`, or to the end of the chain.
    pub fn replay(&self, from: u64, to: Option<u64>) -> (r: Vec<TraceEvent>)
        ensures
            r@ == replayed(
                self.recorded(),
                from,
                match to {
                    Some(end) => end,
                    None => self.recorded().len() as u64,
                },
            ),
    {
        let end: u64 = match to {
            Some(end) => end,
            None => self.events.len() as u64,
        };
        let ghost all = self.events@;
        let mut out: Vec<TraceEvent> = Vec::new();
        let mut i: usize = 0;
        assert(out@ =~= replayed(all.take(0), from, end));
        while i < self.events.len()
            invariant
                i <= self.events@.len(),
                all == self.events@,
                out@ == replayed(all.take(i as int), from, end),
            decreases self.events@.len() - i,
        {
            proof {
                assert(all.take(i + 1).drop_last() =~= all.take(i as int));
                assert(all.take(i + 1).last() == all[i as int]);
            }
            let e = &self.events[i];
            if e.sequence_number >= from && e.sequence_number < end {
                out.push(e.clone());
            }
            i += 1;
        }
        assert(all.take(i as int) =~= all);
        out
    }

    /// Head and length: what to keep elsewhere so that a shortened journal shows.
    pub fn anchor(&self) -> (r: (String, usize))
        ensures
            r.0@ == head_of(self.chain()),
            r.1 == self.chain().len(),
    {
        (self.chain_head(), self.events.len())
    }

    /// Whether the journal is valid and ends at the given anchor.
    pub fn verify_against(&self, expected_head: &str, expected_len: usize) -> (r: bool)
        ensures
            r == (is_chain(self.key(), self.chain()) && head_of(self.chain()) == expected_head@ && self.chain().len()
                == expected_len),
    {
        self.verify() && ct_digest_eq(self.chain_head().as_str(), expected_head) && self.events.len() == expected_len
    }

    /// The journal with its anchor as JSON.
    pub open spec fn export(&self) -> Value {
        empty_obj().with("source"@, Value::Str("rsi://audit"@)).with("chain_head"@, Value::Str(head_of(self.chain()))).with(
            "event_count"@,
            Value::Num(decimal(self.recorded().len())),
        ).with("events"@, array_json(self.recorded()))
    }

    pub fn to_ccos_json(&self) -> (r: String)
        ensures
            r@ == print(self.export()),
    {
        let mut root = Json::obj();
        root.set("source", Json::text("rsi://audit"));
        root.set("chain_head", Json::Str(self.chain_head()));
        root.set("event_count", Json::num(self.events.len() as u64));
        root.set("events", json_array(self.events.as_slice()));
        root.to_string()
    }
}

/// The events with a number from `from` up to `end`.
pub open spec fn replayed(events: Seq<TraceEvent>, from: u64, end: u64) -> Seq<TraceEvent>
    decreases events.len(),
{
    if events.len() == 0 {
        Seq::empty()
    } else if from <= events.last().sequence_number < end {
        replayed(events.drop_last(), from, end).push(events.last())
    } else {
        replayed(events.drop_last(), from, end)
    }
}

impl AuditLog for HashChainLog {
    open spec fn count(&self) -> nat {
        self.chain().len()
    }

    open spec fn head_hash(&self) -> Seq<char> {
        head_of(self.chain())
    }

    open spec fn is_valid(&self) -> bool {
        is_chain(self.key(), self.chain())
    }

    fn record(&mut self, event: &AuditEvent) -> (r: String)
        ensures
            final(self).key() == old(self).key(),
            final(self).chain() == old(self).chain().push(next_link(old(self).key(), old(self).chain(), event.text())),
    {
        let seq: u64 = self.events.len() as u64;
        let prev_hash = self.chain_head();
        let payload = event.payload();
        let hash = self.link(prev_hash.as_str(), seq, "rsi_step", payload.as_str());
        let ghost before = self.chain();
        let ghost link = next_link(self.key(), before, event.text());
        let head = hash.clone();
        self.events.push(
            TraceEvent { sequence_number: seq, prev_hash, hash, event_type: "rsi_step".to_owned(), payload },
        );
        proof {
            assert(self.chain() =~= before.push(link));
            if is_chain(self.key(), before) {
                lemma_chain_push(self.key(), before, link);
            }
        }
        head
    }

    fn len(&self) -> (r: usize) {
        self.events.len()
    }

    fn is_empty(&self) -> (r: bool) {
        self.events.len() == 0
    }

    fn head(&self) -> (r: String) {
        self.chain_head()
    }

    fn verify(&self) -> (r: bool) {
        let ghost all = self.chain();
        let mut prev = GENESIS.to_owned();
        let mut i: usize = 0;
        while i < self.events.len()
            invariant
                i <= self.events@.len(),
                all == self.chain(),
                prev@ == head_of(all.take(i as int)),
                forall|j: int|
                    0 <= j < i ==> (#[trigger] all[j]).is_sealed(self.key()) && all[j].prev_hash == head_of(all.take(j)),
            decreases self.events@.len() - i,
        {
            let e = &self.events[i];
            assert(all[i as int] == e@);
            if !same_text(e.prev_hash.as_str(), prev.as_str()) {
                return false;
            }
            let recomputed = self.link(
                e.prev_hash.as_str(),
                e.sequence_number,
                e.event_type.as_str(),
                e.payload.as_str(),
            );
            if !ct_digest_eq(recomputed.as_str(), e.hash.as_str()) {
                return false;
            }
            prev = e.hash.clone();
            assert(all.take(i + 1).last() == all[i as int]);
            i += 1;
        }
        true
    }
}

// ---------------------------------------------------------------------------
// Laws
// ---------------------------------------------------------------------------

/// Recording steps gives a valid chain whose links are numbered from zero and each
/// name the hash of the one before.
pub proof fn law_recorded_chain_is_valid(key: Option<Seq<u8>>, payloads: Seq<Seq<char>>)
    ensures
        is_chain(key, chain_of(key, payloads)),
        chain_of(key, payloads).len() == payloads.len(),
        forall|i: int|
            0 <= i < payloads.len() ==> (#[trigger] chain_of(key, payloads)[i]).payload == payloads[i] && chain_of(
                key,
                payloads,
            )[i].sequence_number == i as u64,
    decreases payloads.len(),
{
    if payloads.len() > 0 {
        let front = chain_of(key, payloads.drop_last());
        law_recorded_chain_is_valid(key, payloads.drop_last());
        let link = next_link(key, front, payloads.last());
        lemma_chain_push(key, front, link);
        let whole = chain_of(key, payloads);
        assert forall|i: int| 0 <= i < payloads.len() implies (#[trigger] whole[i]).payload == payloads[i]
            && whole[i].sequence_number == i as u64 by {
            if i < front.len() {
                assert(whole[i] == front[i]);
                assert(payloads.drop_last()[i] == payloads[i]);
            }
        }
    }
}

/// The journal depends on the key and on the recorded steps alone: recording one more
/// step after the steps `payloads` gives the chain of all of them. So two journals with
/// the same key and the same steps have the same head.
pub proof fn law_head_is_determined_by_steps(key: Option<Seq<u8>>, payloads: Seq<Seq<char>>, payload: Seq<char>)
    ensures
        chain_of(key, payloads).push(next_link(key, chain_of(key, payloads), payload)) == chain_of(key, payloads.push(payload)),
{
    assert(payloads.push(payload).drop_last() =~= payloads);
}

/// Any beginning of a valid chain is itself valid: without an anchor a shortened
/// journal cannot be told from a whole one.
pub proof fn law_prefix_of_chain_is_valid(key: Option<Seq<u8>>, chain: Seq<Link>, n: int)
    requires
        is_chain(key, chain),
        0 <= n <= chain.len(),
    ensures
        is_chain(key, chain.take(n)),
{
    let front = chain.take(n);
    assert forall|i: int| 0 <= i < front.len() implies (#[trigger] front[i]).is_sealed(key) && front[i].prev_hash == head_of(
        front.take(i),
    ) by {
        assert(front[i] == chain[i]);
        assert(front.take(i) =~= chain.take(i));
    }
}

/// The anchor of a journal tells it from every shortened form of it.
pub proof fn law_anchor_detects_truncation(chain: Seq<Link>, n: int, expected_head: Seq<char>, expected_len: nat)
    requires
        0 <= n < chain.len(),
        expected_head == head_of(chain),
        expected_len == chain.len(),
    ensures
        !(head_of(chain.take(n)) == expected_head && chain.take(n).len() == expected_len),
{
}

/// Changing what one link records, and leaving its hash, breaks the chain unless the
/// two contents have the same hash.
pub proof fn law_altered_link_is_detected(key: Option<Seq<u8>>, chain: Seq<Link>, i: int, altered: Link)
    requires
        is_chain(key, chain),
        0 <= i < chain.len(),
        altered.hash == chain[i].hash,
        is_chain(key, chain.update(i, altered)),
    ensures
        altered.prev_hash == chain[i].prev_hash,
        link_hash_of(key, altered.prev_hash, altered.sequence_number, altered.event_type, altered.payload) == link_hash_of(
            key,
            chain[i].prev_hash,
            chain[i].sequence_number,
            chain[i].event_type,
            chain[i].payload,
        ),
{
    let other = chain.update(i, altered);
    assert(other[i] == altered);
    assert(chain[i].is_sealed(key));
    assert(other[i].is_sealed(key));
    assert(other.take(i) =~= chain.take(i));
}

proof fn lemma_texts_before_a_bar(a: Seq<char>, b: Seq<char>, c: Seq<char>, d: Seq<char>)
    requires
        !a.contains('|'),
        !c.contains('|'),
        a + seq!['|'] + b == c + seq!['|'] + d,
    ensures
        a == c,
        b == d,
{
    let s = a + seq!['|'] + b;
    let t = c + seq!['|'] + d;
    if a.len() < c.len() {
        assert(s[a.len() as int] == '|');
        assert(t[a.len() as int] == c[a.len() as int]);
        assert(c.contains('|'));
    } else if c.len() < a.len() {
        assert(t[c.len() as int] == '|');
        assert(s[c.len() as int] == a[c.len() as int]);
        assert(a.contains('|'));
    }
    assert(a =~= c) by {
        assert forall|i: int| 0 <= i < a.len() implies a[i] == c[i] by {
            assert(s[i] == t[i]);
        }
    }
    assert(s.len() == t.len());
    assert(b =~= d) by {
        assert forall|i: int| 0 <= i < b.len() implies b[i] == d[i] by {
            assert(s[a.len() + 1 + i] == b[i]);
            assert(t[c.len() + 1 + i] == d[i]);
            assert(s[a.len() + 1 + i] == t[a.len() + 1 + i]);
        }
    }
}

/// The text that is hashed for a link determines every part of it, where neither the hash
/// before nor the kind of event holds a bar.
pub proof fn law_link_text_determines_its_parts(
    prev_hash: Seq<char>,
    seq: u64,
    event_type: Seq<char>,
    payload: Seq<char>,
    other_prev: Seq<char>,
    other_seq: u64,
    other_type: Seq<char>,
    other_payload: Seq<char>,
)
    requires
        !prev_hash.contains('|'),
        !event_type.contains('|'),
        !other_prev.contains('|'),
        !other_type.contains('|'),
        link_text(prev_hash, seq, event_type, payload) == link_text(other_prev, other_seq, other_type, other_payload),
    ensures
        prev_hash == other_prev,
        seq == other_seq,
        event_type == other_type,
        payload == other_payload,
{
    reveal_strlit("|");
    let bar = seq!['|'];
    assert("|"@ =~= bar);
    let a = decimal(seq as nat);
    let b = decimal(other_seq as nat);
    law_decimal_writes_the_number(seq as nat);
    law_decimal_writes_the_number(other_seq as nat);
    assert(link_text(prev_hash, seq, event_type, payload) =~= prev_hash + bar + (a + bar + (event_type + bar + payload)));
    assert(link_text(other_prev, other_seq, other_type, other_payload) =~= other_prev + bar + (b + bar + (other_type + bar
        + other_payload)));
    lemma_texts_before_a_bar(
        prev_hash,
        a + bar + (event_type + bar + payload),
        other_prev,
        b + bar + (other_type + bar + other_payload),
    );
    assert(!a.contains('|')) by {
        if a.contains('|') {
            let i = choose|i: int| 0 <= i < a.len() && a[i] == '|';
            assert(48 <= a[i] as u32 <= 57);
        }
    }
    assert(!b.contains('|')) by {
        if b.contains('|') {
            let i = choose|i: int| 0 <= i < b.len() && b[i] == '|';
            assert(48 <= b[i] as u32 <= 57);
        }
    }
    lemma_texts_before_a_bar(a, event_type + bar + payload, b, other_type + bar + other_payload);
    lemma_texts_before_a_bar(event_type, payload, other_type, other_payload);
}

/// In a valid journal the first link follows the genesis and every other the hash of the
/// one before, whatever the key; and a journal grows to a valid one exactly by a link that
/// follows its head and bears its own hash.
pub proof fn law_links_follow_each_other(key: Option<Seq<u8>>, chain: Seq<Link>, link: Link)
    ensures
        is_chain(key, chain) && chain.len() > 0 ==> chain[0].prev_hash == "GENESIS"@,
        is_chain(key, chain) ==> forall|i: int| 0 < i < chain.len() ==> (#[trigger] chain[i]).prev_hash == chain[i - 1].hash,
        is_chain(key, chain.push(link)) <==> is_chain(key, chain) && link.prev_hash == (if chain.len() == 0 {
            "GENESIS"@
        } else {
            chain.last().hash
        }) && link.hash == link_hash_of(key, link.prev_hash, link.sequence_number, link.event_type, link.payload),
        is_chain(key, Seq::empty()),
{
    if is_chain(key, chain) {
        assert forall|i: int| 0 < i < chain.len() implies (#[trigger] chain[i]).prev_hash == chain[i - 1].hash by {
            assert(chain.take(i).last() == chain[i - 1]);
        }
        if chain.len() > 0 {
            assert(chain.take(0).len() == 0);
            assert(chain[0].prev_hash == head_of(chain.take(0)));
        }
    }
    let more = chain.push(link);
    let n = chain.len() as int;
    assert(more.take(n) =~= chain);
    assert(more[n] == link);
    assert forall|i: int| 0 <= i < n implies #[trigger] more[i] == chain[i] && more.take(i) == chain.take(i) by {
        assert(more.take(i) =~= chain.take(i));
    }
    if is_chain(key, more) {
        assert forall|i: int| 0 <= i < n implies (#[trigger] chain[i]).is_sealed(key) && chain[i].prev_hash == head_of(
            chain.take(i),
        ) by {
            assert(more[i] == chain[i]);
        }
        assert(more[n].is_sealed(key));
    }
    if is_chain(key, chain) && link.prev_hash == head_of(chain) && link.is_sealed(key) {
        assert forall|i: int| 0 <= i < more.len() implies (#[trigger] more[i]).is_sealed(key) && more[i].prev_hash == head_of(
            more.take(i),
        ) by {
            if i < n {
                assert(chain[i].is_sealed(key));
            }
        }
    }
}

/// A step that is recorded is numbered by what was recorded before, and keeps its payload.
pub proof fn law_recorded_links(key: Option<Seq<u8>>, chain: Seq<Link>, payload: Seq<char>)
    requires
        chain.len() <= u64::MAX,
    ensures
        next_link(key, chain, payload).sequence_number == chain.len(),
        next_link(key, chain, payload).payload == payload,
        next_link(key, chain, payload).event_type == "rsi_step"@,
        is_chain(key, chain) ==> is_chain(key, chain.push(next_link(key, chain, payload))),
{
    law_links_follow_each_other(key, chain, next_link(key, chain, payload));
}

/// What is replayed are the events whose numbers lie in the range, in their order.
pub proof fn law_replay_keeps_the_range(events: Seq<TraceEvent>, from: u64, end: u64)
    ensures
        replayed(events, from, end) == events.filter(|e: TraceEvent| from <= e.sequence_number < end),
    decreases events.len(),
{
    reveal(Seq::filter);
    if events.len() > 0 {
        law_replay_keeps_the_range(events.drop_last(), from, end);
    }
}

/// Links of the same key and hash are hashed from the same text, unless two different
/// strings of bytes have the same digest or the same signature.
pub proof fn law_equal_hashes_mean_equal_texts(
    key: Option<Seq<u8>>,
    prev_hash: Seq<char>,
    seq: u64,
    event_type: Seq<char>,
    payload: Seq<char>,
    other_prev: Seq<char>,
    other_seq: u64,
    other_type: Seq<char>,
    other_payload: Seq<char>,
)
    requires
        link_hash_of(key, prev_hash, seq, event_type, payload) == link_hash_of(
            key,
            other_prev,
            other_seq,
            other_type,
            other_payload,
        ),
    ensures
        ({
            let a = encode_utf8(link_text(prev_hash, seq, event_type, payload));
            let b = encode_utf8(link_text(other_prev, other_seq, other_type, other_payload));
            a == b || (match key {
                Some(k) => hmac(k, a) == hmac(k, b),
                None => digest_hex(a) == digest_hex(b),
            })
        }),
        encode_utf8(link_text(prev_hash, seq, event_type, payload)) == encode_utf8(
            link_text(other_prev, other_seq, other_type, other_payload),
        ) ==> link_text(prev_hash, seq, event_type, payload) == link_text(other_prev, other_seq, other_type, other_payload),
{
    reveal(link_hash_of);
    let s = link_text(prev_hash, seq, event_type, payload);
    let t = link_text(other_prev, other_seq, other_type, other_payload);
    vstd::utf8::encode_utf8_decode_utf8(s);
    vstd::utf8::encode_utf8_decode_utf8(t);
    match key {
        Some(k) => {
            law_hex_writes_the_bytes(hmac(k, encode_utf8(s)), hmac(k, encode_utf8(t)));
        },
        None => {},
    }
}

} // verus!
