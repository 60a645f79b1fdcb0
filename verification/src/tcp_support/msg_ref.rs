//! Messages before KEXINIT: classification of payloads and the budgeted
//! packet sequence.

use vstd::prelude::*;
use vstd::slice::slice_subrange;
use crate::seqs::{copy_bytes, nested, same_bytes, slices, tail, vecs};
use crate::tcp_support::packet_ref::{self, framing, Framing, RefStep};
use crate::tcp_support::types::{
    InitialError, InitialLimits, KexName, OwnedKexInit, ProposalAnomaly, SkippedMessage,
};
use crate::text::{ascii_string, ascii_text, bytes_of};
use crate::wire_core::error::Field;
use crate::wire_core::messages_ref::{
    self, debug_read, disconnect_read, empty_required, ignore_read, kexinit_list_field, kexinit_read,
    list_field, unimplemented_read, KexInitFields, LIST_COUNT, REQUIRED_LIST_COUNT,
};
use crate::wire_core::namelist_ref::{valid_name, valid_names};

verus! {

/// A decoded KEXINIT.
#[derive(Clone, Debug, PartialEq, Eq)]
pub struct RefKexInit<C = [u8; 16], L = Vec<Vec<Vec<u8>>>> {
    pub cookie: C,
    /// Ten name lists in wire order.
    pub lists: L,
    pub first_kex_packet_follows: bool,
    pub reserved: u32,
}

impl View for RefKexInit<[u8; 16], Vec<Vec<Vec<u8>>>> {
    type V = RefKexInit<Seq<u8>, Seq<Seq<Seq<u8>>>>;

    open spec fn view(&self) -> RefKexInit<Seq<u8>, Seq<Seq<Seq<u8>>>> {
        RefKexInit {
            cookie: self.cookie@,
            lists: nested(self.lists@),
            first_kex_packet_follows: self.first_kex_packet_follows,
            reserved: self.reserved,
        }
    }
}

/// What a KEXINIT says, without the raw form of its boolean.
pub open spec fn kexinit_of(f: KexInitFields) -> RefKexInit<Seq<u8>, Seq<Seq<Seq<u8>>>> {
    RefKexInit {
        cookie: f.cookie,
        lists: f.names,
        first_kex_packet_follows: f.first_byte != 0,
        reserved: f.reserved,
    }
}

/// The texts that ASCII names spell.
pub open spec fn ascii_texts(names: Seq<Seq<u8>>) -> Seq<Seq<char>> {
    Seq::new(names.len(), |i: int| ascii_text(names[i]))
}

/// A KEXINIT with its names as text.
pub open spec fn owned_of(k: RefKexInit<Seq<u8>, Seq<Seq<Seq<u8>>>>) -> OwnedKexInit<Seq<u8>, Seq<Seq<char>>> {
    OwnedKexInit {
        cookie: k.cookie,
        kex_algorithms: ascii_texts(k.lists[0]),
        server_host_key_algorithms: ascii_texts(k.lists[1]),
        encryption_client_to_server: ascii_texts(k.lists[2]),
        encryption_server_to_client: ascii_texts(k.lists[3]),
        mac_client_to_server: ascii_texts(k.lists[4]),
        mac_server_to_client: ascii_texts(k.lists[5]),
        compression_client_to_server: ascii_texts(k.lists[6]),
        compression_server_to_client: ascii_texts(k.lists[7]),
        languages_client_to_server: ascii_texts(k.lists[8]),
        languages_server_to_client: ascii_texts(k.lists[9]),
        first_kex_packet_follows: k.first_kex_packet_follows,
        reserved: k.reserved,
    }
}

/// Anomalies of a proposal: nonzero reserved first, then every empty required
/// list in wire order.
pub open spec fn anomalies_of(k: RefKexInit<Seq<u8>, Seq<Seq<Seq<u8>>>>) -> Seq<ProposalAnomaly> {
    (if k.reserved != 0 {
        seq![ProposalAnomaly::NonzeroReserved(k.reserved)]
    } else {
        Seq::empty()
    }) + empty_required(k.lists, 0).map_values(|f: Field| ProposalAnomaly::EmptyAlgorithmList(f))
}

/// The names as text.
fn names_as_text(names: &Vec<Vec<u8>>) -> (r: Vec<String>)
    requires
        valid_names(vecs(names@)),
    ensures
        crate::seqs::texts(r@) == ascii_texts(vecs(names@)),
{
    let mut out: Vec<String> = Vec::new();
    let mut i: usize = 0;
    while i < names.len()
        invariant
            i <= names@.len(),
            valid_names(vecs(names@)),
            out@.len() == i,
            forall|j: int| 0 <= j < i ==> #[trigger] out@[j]@ == ascii_text(names@[j]@),
        decreases names@.len() - i,
    {
        proof {
            assert(valid_name(vecs(names@)[i as int]));
        }
        out.push(ascii_string(copy_bytes(names[i].as_slice())));
        i = i + 1;
    }
    proof {
        assert(crate::seqs::texts(out@) =~= ascii_texts(vecs(names@)));
    }
    out
}

impl RefKexInit<[u8; 16], Vec<Vec<Vec<u8>>>> {
    /// Ten lists of valid names.
    pub open spec fn wf(self) -> bool {
        self.lists@.len() == LIST_COUNT && forall|i: int|
            0 <= i < LIST_COUNT ==> valid_names(#[trigger] nested(self.lists@)[i])
    }

    /// The same KEXINIT with its names as text.
    pub fn to_owned_kexinit(&self) -> (r: OwnedKexInit)
        requires
            self.wf(),
        ensures
            r@ == owned_of(self@),
            r.cookie == self.cookie,
            crate::seqs::texts(r.kex_algorithms@) == ascii_texts(vecs(self.lists@[0]@)),
            crate::seqs::texts(r.server_host_key_algorithms@) == ascii_texts(vecs(self.lists@[1]@)),
            crate::seqs::texts(r.encryption_client_to_server@) == ascii_texts(vecs(self.lists@[2]@)),
            crate::seqs::texts(r.encryption_server_to_client@) == ascii_texts(vecs(self.lists@[3]@)),
            crate::seqs::texts(r.mac_client_to_server@) == ascii_texts(vecs(self.lists@[4]@)),
            crate::seqs::texts(r.mac_server_to_client@) == ascii_texts(vecs(self.lists@[5]@)),
            crate::seqs::texts(r.compression_client_to_server@) == ascii_texts(vecs(self.lists@[6]@)),
            crate::seqs::texts(r.compression_server_to_client@) == ascii_texts(vecs(self.lists@[7]@)),
            crate::seqs::texts(r.languages_client_to_server@) == ascii_texts(vecs(self.lists@[8]@)),
            crate::seqs::texts(r.languages_server_to_client@) == ascii_texts(vecs(self.lists@[9]@)),
            r.first_kex_packet_follows == self.first_kex_packet_follows,
            r.reserved == self.reserved,
    {
        proof {
            assert(forall|i: int| 0 <= i < LIST_COUNT ==> valid_names(#[trigger] nested(self.lists@)[i]));
            assert(nested(self.lists@)[0] == vecs(self.lists@[0]@));
            assert(nested(self.lists@)[1] == vecs(self.lists@[1]@));
            assert(nested(self.lists@)[2] == vecs(self.lists@[2]@));
            assert(nested(self.lists@)[3] == vecs(self.lists@[3]@));
            assert(nested(self.lists@)[4] == vecs(self.lists@[4]@));
            assert(nested(self.lists@)[5] == vecs(self.lists@[5]@));
            assert(nested(self.lists@)[6] == vecs(self.lists@[6]@));
            assert(nested(self.lists@)[7] == vecs(self.lists@[7]@));
            assert(nested(self.lists@)[8] == vecs(self.lists@[8]@));
            assert(nested(self.lists@)[9] == vecs(self.lists@[9]@));
        }
        OwnedKexInit {
            cookie: self.cookie,
            kex_algorithms: names_as_text(&self.lists[0]),
            server_host_key_algorithms: names_as_text(&self.lists[1]),
            encryption_client_to_server: names_as_text(&self.lists[2]),
            encryption_server_to_client: names_as_text(&self.lists[3]),
            mac_client_to_server: names_as_text(&self.lists[4]),
            mac_server_to_client: names_as_text(&self.lists[5]),
            compression_client_to_server: names_as_text(&self.lists[6]),
            compression_server_to_client: names_as_text(&self.lists[7]),
            languages_client_to_server: names_as_text(&self.lists[8]),
            languages_server_to_client: names_as_text(&self.lists[9]),
            first_kex_packet_follows: self.first_kex_packet_follows,
            reserved: self.reserved,
        }
    }

    /// Anomalies a proposal report must carry: nonzero reserved first, then
    /// every empty required list in wire order.
    pub fn anomalies(&self) -> (r: Vec<ProposalAnomaly>)
        requires
            self.lists@.len() == LIST_COUNT,
        ensures
            r@ == anomalies_of(self@),
    {
        let mut out: Vec<ProposalAnomaly> = Vec::new();
        if self.reserved != 0 {
            out.push(ProposalAnomaly::NonzeroReserved(self.reserved));
        }
        let ghost start = out@;
        let mut i: usize = 0;
        let ghost f = |x: Field| ProposalAnomaly::EmptyAlgorithmList(x);
        proof {
            assert(start + empty_required(self@.lists, 0).map_values(f) =~= anomalies_of(self@));
        }
        while i < REQUIRED_LIST_COUNT
            invariant
                i <= REQUIRED_LIST_COUNT,
                self.lists@.len() == LIST_COUNT,
                f == (|x: Field| ProposalAnomaly::EmptyAlgorithmList(x)),
                out@ + empty_required(self@.lists, i as int).map_values(f) == anomalies_of(self@),
            decreases REQUIRED_LIST_COUNT - i,
        {
            let ghost before = out@;
            proof {
                assert(self@.lists[i as int] == vecs(self.lists@[i as int]@));
            }
            if self.lists[i].len() == 0 {
                out.push(ProposalAnomaly::EmptyAlgorithmList(kexinit_list_field(i)));
                proof {
                    let rest = empty_required(self@.lists, i + 1);
                    assert((seq![list_field(i as int)] + rest).map_values(f) =~= seq![
                        f(list_field(i as int)),
                    ] + rest.map_values(f));
                    assert(before + (seq![f(list_field(i as int))] + rest.map_values(f)) =~= out@
                        + rest.map_values(f));
                }
            }
            i = i + 1;
        }
        proof {
            assert(out@ + Seq::<Field>::empty().map_values(f) =~= out@);
            assert(empty_required(self@.lists, i as int) =~= Seq::empty());
        }
        out
    }
}

/// What a complete payload is before KEXINIT.
#[derive(Clone, Debug, PartialEq, Eq)]
pub enum RefMessage<B = Vec<u8>, K = RefKexInit> {
    Skipped(SkippedMessage<B>),
    Disconnect { reason_code: u32, description: B, language_tag: B },
    KexInit(Box<K>),
    /// A recognised message number whose body does not decode.
    Malformed(u8),
    Empty,
    UnsupportedTransition(u8),
    Unexpected(u8),
}

/// A message over sequences.
pub type MessageView = RefMessage<Seq<u8>, RefKexInit<Seq<u8>, Seq<Seq<Seq<u8>>>>>;

impl View for RefMessage<Vec<u8>, RefKexInit> {
    type V = MessageView;

    open spec fn view(&self) -> MessageView {
        match self {
            RefMessage::Skipped(m) => RefMessage::Skipped(m@),
            RefMessage::Disconnect { reason_code, description, language_tag } => RefMessage::Disconnect {
                reason_code: *reason_code,
                description: description@,
                language_tag: language_tag@,
            },
            RefMessage::KexInit(k) => RefMessage::KexInit(Box::new((**k)@)),
            RefMessage::Malformed(n) => RefMessage::Malformed(*n),
            RefMessage::Empty => RefMessage::Empty,
            RefMessage::UnsupportedTransition(n) => RefMessage::UnsupportedTransition(*n),
            RefMessage::Unexpected(n) => RefMessage::Unexpected(*n),
        }
    }
}

/// Numbers that belong to the key exchange itself.
pub open spec fn transition_number(n: u8) -> bool {
    n == 21 || 30 <= n <= 49
}

/// What a payload is before KEXINIT.
pub open spec fn classified(p: Seq<u8>) -> MessageView {
    if p.len() == 0 {
        RefMessage::Empty
    } else if p[0] == 1 {
        match disconnect_read(p) {
            Ok(f) => RefMessage::Disconnect {
                reason_code: f.reason_code,
                description: f.description,
                language_tag: f.language_tag,
            },
            Err(_) => RefMessage::Malformed(1),
        }
    } else if p[0] == 2 {
        match ignore_read(p) {
            Ok(data) => RefMessage::Skipped(SkippedMessage::Ignored { data_len: data.len() as usize }),
            Err(_) => RefMessage::Malformed(2),
        }
    } else if p[0] == 3 {
        match unimplemented_read(p) {
            Ok(sequence_number) => RefMessage::Skipped(SkippedMessage::Unimplemented { sequence_number }),
            Err(_) => RefMessage::Malformed(3),
        }
    } else if p[0] == 4 {
        match debug_read(p) {
            Ok(f) => RefMessage::Skipped(
                SkippedMessage::Debug {
                    always_display: f.always_display_byte != 0,
                    message: f.message,
                    language_tag: f.language_tag,
                },
            ),
            Err(_) => RefMessage::Malformed(4),
        }
    } else if p[0] == 20 {
        match kexinit_read(p) {
            Ok(f) => RefMessage::KexInit(Box::new(kexinit_of(f))),
            Err(_) => RefMessage::Malformed(20),
        }
    } else if transition_number(p[0]) {
        RefMessage::UnsupportedTransition(p[0])
    } else {
        RefMessage::Unexpected(p[0])
    }
}

/// Copies the sixteen cookie bytes.
pub fn cookie_array(c: &[u8]) -> (r: [u8; 16])
    requires
        c@.len() == 16,
    ensures
        r@ == c@,
{
    let r: [u8; 16] = [
        c[0],
        c[1],
        c[2],
        c[3],
        c[4],
        c[5],
        c[6],
        c[7],
        c[8],
        c[9],
        c[10],
        c[11],
        c[12],
        c[13],
        c[14],
        c[15],
    ];
    proof {
        assert(r@ =~= c@);
    }
    r
}

fn own_lists(names: &Vec<Vec<&[u8]>>) -> (r: Vec<Vec<Vec<u8>>>)
    ensures
        nested(r@) == messages_ref::name_lists(names@),
{
    let mut out: Vec<Vec<Vec<u8>>> = Vec::new();
    let mut i: usize = 0;
    while i < names.len()
        invariant
            i <= names@.len(),
            out@.len() == i,
            forall|j: int| 0 <= j < i ==> vecs(#[trigger] out@[j]@) == slices(names@[j]@),
        decreases names@.len() - i,
    {
        let list = &names[i];
        let mut own: Vec<Vec<u8>> = Vec::new();
        let mut k: usize = 0;
        while k < list.len()
            invariant
                k <= list@.len(),
                own@.len() == k,
                forall|j: int| 0 <= j < k ==> #[trigger] own@[j]@ == list@[j]@,
            decreases list@.len() - k,
        {
            own.push(copy_bytes(list[k]));
            k = k + 1;
        }
        proof {
            assert(vecs(own@) =~= slices(list@));
        }
        out.push(own);
        i = i + 1;
    }
    proof {
        assert(nested(out@) =~= messages_ref::name_lists(names@));
    }
    out
}

/// Classifies a payload exactly as the phase before KEXINIT must.
pub fn classify(payload: &[u8]) -> (r: RefMessage)
    ensures
        r@ == classified(payload@),
        r matches RefMessage::KexInit(k) ==> k.wf(),
{
    if payload.len() == 0 {
        return RefMessage::Empty;
    }
    let number: u8 = payload[0];
    if number == 1 {
        match messages_ref::disconnect(payload) {
            Ok(d) => RefMessage::Disconnect {
                reason_code: d.reason_code,
                description: copy_bytes(d.description),
                language_tag: copy_bytes(d.language_tag),
            },
            Err(_) => RefMessage::Malformed(number),
        }
    } else if number == 2 {
        match messages_ref::ignore(payload) {
            Ok(data) => RefMessage::Skipped(SkippedMessage::Ignored { data_len: data.len() }),
            Err(_) => RefMessage::Malformed(number),
        }
    } else if number == 3 {
        match messages_ref::unimplemented(payload) {
            Ok(sequence_number) => RefMessage::Skipped(SkippedMessage::Unimplemented { sequence_number }),
            Err(_) => RefMessage::Malformed(number),
        }
    } else if number == 4 {
        match messages_ref::debug(payload) {
            Ok(d) => RefMessage::Skipped(
                SkippedMessage::Debug {
                    always_display: d.always_display_byte != 0,
                    message: copy_bytes(d.message),
                    language_tag: copy_bytes(d.language_tag),
                },
            ),
            Err(_) => RefMessage::Malformed(number),
        }
    } else if number == 20 {
        match messages_ref::kexinit(payload) {
            Ok(k) => {
                proof {
                    crate::wire_core::laws::lemma_kexinit_read_write(payload@);
                }
                let own = RefKexInit {
                    cookie: cookie_array(k.cookie),
                    lists: own_lists(&k.names),
                    first_kex_packet_follows: k.first_kex_packet_follows_byte != 0,
                    reserved: k.reserved,
                };
                RefMessage::KexInit(Box::new(own))
            },
            Err(_) => RefMessage::Malformed(number),
        }
    } else if number == 21 || (30 <= number && number <= 49) {
        RefMessage::UnsupportedTransition(number)
    } else {
        RefMessage::Unexpected(number)
    }
}

/// The table of `kex_algorithms` entries that are markers, not methods: the
/// extension markers and both spellings of the strict-kex markers.
pub open spec fn kex_class(name: Seq<u8>) -> KexName {
    if name == bytes_of("ext-info-c") {
        KexName::ExtInfoClient
    } else if name == bytes_of("ext-info-s") {
        KexName::ExtInfoServer
    } else if name == bytes_of("kex-strict-c-v00@openssh.com") || name == bytes_of("kex-strict-c") {
        KexName::StrictKexClient
    } else if name == bytes_of("kex-strict-s-v00@openssh.com") || name == bytes_of("kex-strict-s") {
        KexName::StrictKexServer
    } else {
        KexName::Method
    }
}

/// What an entry of `kex_algorithms` stands for.
pub fn kex_name(name: &[u8]) -> (r: KexName)
    ensures
        r == kex_class(name@),
{
    if same_bytes(name, "ext-info-c".as_bytes()) {
        KexName::ExtInfoClient
    } else if same_bytes(name, "ext-info-s".as_bytes()) {
        KexName::ExtInfoServer
    } else if same_bytes(name, "kex-strict-c-v00@openssh.com".as_bytes()) || same_bytes(
        name,
        "kex-strict-c".as_bytes(),
    ) {
        KexName::StrictKexClient
    } else if same_bytes(name, "kex-strict-s-v00@openssh.com".as_bytes()) || same_bytes(
        name,
        "kex-strict-s".as_bytes(),
    ) {
        KexName::StrictKexServer
    } else {
        KexName::Method
    }
}

/// What a step over initial packets produced.
#[derive(Clone, Debug, PartialEq, Eq)]
#[allow(inconsistent_fields)]
pub enum Observed<B = Vec<u8>, K = OwnedKexInit> {
    Skipped { message: SkippedMessage<B>, consumed: usize },
    KexInit { kexinit: Box<K>, payload: B, consumed: usize },
    Disconnect { reason_code: u32, description: B, language_tag: B, consumed: usize },
    Error(InitialError),
}

/// An observation over sequences.
pub type ObservedView = Observed<Seq<u8>, OwnedKexInit<Seq<u8>, Seq<Seq<char>>>>;

impl View for Observed<Vec<u8>, OwnedKexInit> {
    type V = ObservedView;

    open spec fn view(&self) -> ObservedView {
        match self {
            Observed::Skipped { message, consumed } => Observed::Skipped {
                message: message@,
                consumed: *consumed,
            },
            Observed::KexInit { kexinit, payload, consumed } => Observed::KexInit {
                kexinit: Box::new((**kexinit)@),
                payload: payload@,
                consumed: *consumed,
            },
            Observed::Disconnect { reason_code, description, language_tag, consumed } => Observed::Disconnect {
                reason_code: *reason_code,
                description: description@,
                language_tag: language_tag@,
                consumed: *consumed,
            },
            Observed::Error(e) => Observed::Error(*e),
        }
    }
}

impl Observed<Vec<u8>, OwnedKexInit> {
    /// Whether both hold the same.
    pub fn same(&self, other: &Self) -> (r: bool)
        ensures
            r == (self@ == other@),
    {
        match (self, other) {
            (Observed::Skipped { message: a, consumed: c }, Observed::Skipped { message: b, consumed: d }) => a.same(
                b,
            ) && *c == *d,
            (
                Observed::KexInit { kexinit: a, payload: p, consumed: c },
                Observed::KexInit { kexinit: b, payload: q, consumed: d },
            ) => a.same(b) && same_bytes(p.as_slice(), q.as_slice()) && *c == *d,
            (
                Observed::Disconnect { reason_code: a, description: p, language_tag: l, consumed: c },
                Observed::Disconnect { reason_code: b, description: q, language_tag: k, consumed: d },
            ) => *a == *b && same_bytes(p.as_slice(), q.as_slice()) && same_bytes(l.as_slice(), k.as_slice())
                && *c == *d,
            (Observed::Error(a), Observed::Error(b)) => *a == *b,
            _ => false,
        }
    }
}

/// The packets and bytes counted so far.
#[derive(Clone, Copy, Debug, PartialEq, Eq, Structural)]
pub struct Model {
    pub packets: usize,
    pub bytes: usize,
}

/// What the model predicts for one step.
#[derive(Clone, Debug, PartialEq, Eq)]
pub enum ModelStep<O = Observed> {
    NeedMore,
    Observed(O),
    /// A decoding failure of the given message, whatever the detail.
    Malformed(u8),
}

impl View for ModelStep<Observed> {
    type V = ModelStep<ObservedView>;

    open spec fn view(&self) -> ModelStep<ObservedView> {
        match self {
            ModelStep::NeedMore => ModelStep::NeedMore,
            ModelStep::Observed(o) => ModelStep::Observed(o@),
            ModelStep::Malformed(n) => ModelStep::Malformed(*n),
        }
    }
}

/// The payload of the packet at the front of `rest`.
pub open spec fn payload_at(rest: Seq<u8>, payload_len: int) -> Seq<u8> {
    rest.subrange(5, 5 + payload_len)
}

/// What a counted packet leads to.
pub open spec fn observed_of(payload: Seq<u8>, consumed: usize) -> ModelStep<ObservedView> {
    match classified(payload) {
        RefMessage::Skipped(message) => ModelStep::Observed(Observed::Skipped { message, consumed }),
        RefMessage::Disconnect { reason_code, description, language_tag } => ModelStep::Observed(
            Observed::Disconnect { reason_code, description, language_tag, consumed },
        ),
        RefMessage::KexInit(k) => ModelStep::Observed(
            Observed::KexInit { kexinit: Box::new(owned_of(*k)), payload, consumed },
        ),
        RefMessage::Malformed(n) => ModelStep::Malformed(n),
        RefMessage::Empty => ModelStep::Observed(Observed::Error(InitialError::EmptyPayload)),
        RefMessage::UnsupportedTransition(number) => ModelStep::Observed(
            Observed::Error(InitialError::UnsupportedTransition { number }),
        ),
        RefMessage::Unexpected(number) => ModelStep::Observed(
            Observed::Error(InitialError::UnexpectedMessage { number }),
        ),
    }
}

impl Model {
    /// Counts within the limits.
    pub open spec fn wf(self, limits: InitialLimits) -> bool {
        self.packets <= limits.max_packets && self.bytes <= limits.max_bytes
    }

    /// What the front of `rest` leads to.
    pub open spec fn predicts(self, rest: Seq<u8>, limits: InitialLimits) -> ModelStep<ObservedView> {
        match framing(rest, limits.max_packet_length) {
            Err(e) => ModelStep::Observed(Observed::Error(InitialError::Packet(e))),
            Ok(Framing::NeedMore { claimed }) => ModelStep::NeedMore,
            Ok(Framing::Complete { payload_len, total_len }) => if self.packets >= limits.max_packets {
                ModelStep::Observed(
                    Observed::Error(InitialError::PacketBudgetExceeded { limit: limits.max_packets }),
                )
            } else if self.bytes + total_len > limits.max_bytes {
                ModelStep::Observed(
                    Observed::Error(InitialError::ByteBudgetExceeded { limit: limits.max_bytes }),
                )
            } else {
                observed_of(payload_at(rest, payload_len), total_len as usize)
            },
        }
    }

    /// The counts after the front of `rest`.
    pub open spec fn after(self, rest: Seq<u8>, limits: InitialLimits) -> Model {
        match framing(rest, limits.max_packet_length) {
            Ok(Framing::Complete { payload_len, total_len }) => if self.packets >= limits.max_packets
                || self.bytes + total_len > limits.max_bytes {
                self
            } else {
                Model { packets: (self.packets + 1) as usize, bytes: (self.bytes + total_len) as usize }
            },
            _ => self,
        }
    }
}

/// Predicts one step over initial packets and counts it.
pub fn model_step(model: &mut Model, rest: &[u8], limits: &InitialLimits) -> (r: ModelStep)
    requires
        old(model).wf(*limits),
    ensures
        r@ == old(model).predicts(rest@, *limits),
        *final(model) == old(model).after(rest@, *limits),
        final(model).wf(*limits),
        r matches ModelStep::Observed(Observed::Skipped { message, consumed }) ==> 16 <= consumed
            <= rest@.len(),
{
    match packet_ref::decode(rest, limits.max_packet_length) {
        Err(e) => ModelStep::Observed(Observed::Error(InitialError::Packet(e))),
        Ok(RefStep::NeedMore { total_len }) => ModelStep::NeedMore,
        Ok(RefStep::Complete { payload, padding, total_len }) => {
            if model.packets >= limits.max_packets {
                return ModelStep::Observed(
                    Observed::Error(InitialError::PacketBudgetExceeded { limit: limits.max_packets }),
                );
            }
            if total_len > limits.max_bytes - model.bytes {
                return ModelStep::Observed(
                    Observed::Error(InitialError::ByteBudgetExceeded { limit: limits.max_bytes }),
                );
            }
            model.packets = model.packets + 1;
            model.bytes = model.bytes + total_len;
            let body = slice_subrange(rest, payload.start, payload.end);
            proof {
                assert(body@ =~= payload_at(rest@, payload.end - 5));
            }
            match classify(body) {
                RefMessage::Skipped(message) => ModelStep::Observed(
                    Observed::Skipped { message, consumed: total_len },
                ),
                RefMessage::Disconnect { reason_code, description, language_tag } => ModelStep::Observed(
                    Observed::Disconnect { reason_code, description, language_tag, consumed: total_len },
                ),
                RefMessage::KexInit(k) => ModelStep::Observed(
                    Observed::KexInit {
                        kexinit: Box::new(k.to_owned_kexinit()),
                        payload: copy_bytes(body),
                        consumed: total_len,
                    },
                ),
                RefMessage::Malformed(n) => ModelStep::Malformed(n),
                RefMessage::Empty => ModelStep::Observed(Observed::Error(InitialError::EmptyPayload)),
                RefMessage::UnsupportedTransition(number) => ModelStep::Observed(
                    Observed::Error(InitialError::UnsupportedTransition { number }),
                ),
                RefMessage::Unexpected(number) => ModelStep::Observed(
                    Observed::Error(InitialError::UnexpectedMessage { number }),
                ),
            }
        },
    }
}

/// A step agrees with its prediction.
pub open spec fn step_agrees(actual: Option<ObservedView>, expected: ModelStep<ObservedView>) -> bool {
    match (actual, expected) {
        (None, ModelStep::NeedMore) => true,
        (Some(Observed::Error(InitialError::Message { number, error })), ModelStep::Malformed(n)) => number == n,
        (Some(a), ModelStep::Observed(e)) => a == e,
        _ => false,
    }
}

/// The observation of an optional step.
pub open spec fn opt_observed(o: Option<&Observed>) -> Option<ObservedView> {
    match o {
        Some(v) => Some(v@),
        None => None,
    }
}

/// Whether a step agrees with its prediction.
pub fn check_step(actual: Option<&Observed>, expected: &ModelStep) -> (r: bool)
    ensures
        r == step_agrees(opt_observed(actual), expected@),
{
    match (actual, expected) {
        (None, ModelStep::NeedMore) => true,
        (Some(Observed::Error(InitialError::Message { number, error })), ModelStep::Malformed(n)) => *number
            == *n,
        (Some(a), ModelStep::Observed(e)) => a.same(e),
        _ => false,
    }
}

/// One reported step with the counters after it.
#[derive(Clone, Debug, PartialEq, Eq)]
pub struct Reported {
    pub step: Observed,
    pub packets: usize,
    pub bytes: usize,
}

/// The reports from the `i`-th on agree with the model from `off` on: every
/// step as predicted with the predicted counters, up to the step that asks
/// for more or ends the sequence.
pub open spec fn reports_agree(
    stream: Seq<u8>,
    limits: InitialLimits,
    model: Model,
    off: int,
    reports: Seq<Reported>,
    i: int,
) -> bool
    decreases reports.len() - i,
{
    let expected = model.predicts(stream.skip(off), limits);
    let next = model.after(stream.skip(off), limits);
    if i >= reports.len() {
        expected == ModelStep::<ObservedView>::NeedMore
    } else {
        &&& step_agrees(Some(reports[i].step@), expected)
        &&& reports[i].packets == next.packets
        &&& reports[i].bytes == next.bytes
        &&& match reports[i].step@ {
            Observed::Skipped { message, consumed } => reports_agree(
                stream,
                limits,
                next,
                off + consumed,
                reports,
                i + 1,
            ),
            _ => i + 1 == reports.len(),
        }
    }
}

/// The steps of two reports are the same.
pub open spec fn same_steps(a: Seq<Reported>, b: Seq<Observed>) -> bool {
    a.len() == b.len() && forall|i: int| 0 <= i < a.len() ==> (#[trigger] a[i]).step@ == b[i]@
}

/// Judges what a decoder reported over `stream`: `reports` with the stream
/// delivered at once, step by step against the model with its counters, and
/// `chunked` with the stream in pieces, which must be the same sequence.
pub fn check_initial_packets(
    stream: &[u8],
    limits: &InitialLimits,
    reports: &Vec<Reported>,
    chunked: &Vec<Observed>,
) -> (r: bool)
    ensures
        r == (reports_agree(stream@, *limits, Model { packets: 0, bytes: 0 }, 0, reports@, 0) && same_steps(
            reports@,
            chunked@,
        )),
{
    let mut model = Model { packets: 0, bytes: 0 };
    let mut off: usize = 0;
    let mut i: usize = 0;
    let mut open: bool = true;
    let ghost goal = reports_agree(stream@, *limits, model, 0, reports@, 0);
    while open
        invariant
            off <= stream@.len(),
            i <= reports@.len(),
            model.wf(*limits),
            open ==> goal == reports_agree(stream@, *limits, model, off as int, reports@, i as int),
            !open ==> goal,
            goal == reports_agree(stream@, *limits, Model { packets: 0, bytes: 0 }, 0, reports@, 0),
        decreases reports@.len() - i, (if open { 1int } else { 0int }),
    {
        let rest = tail(stream, off);
        let expected = model_step(&mut model, rest, limits);
        proof {
            assert(stream@.len() == stream.len());
        }
        if i >= reports.len() {
            if !check_step(None, &expected) {
                return false;
            }
            open = false;
        } else {
            let report = &reports[i];
            if !check_step(Some(&report.step), &expected) || report.packets != model.packets
                || report.bytes != model.bytes {
                return false;
            }
            match &report.step {
                Observed::Skipped { message, consumed } => {
                    off = off + *consumed;
                    i = i + 1;
                },
                _ => {
                    if i + 1 != reports.len() {
                        return false;
                    }
                    open = false;
                },
            }
        }
    }
    if reports.len() != chunked.len() {
        return false;
    }
    let mut k: usize = 0;
    while k < reports.len()
        invariant
            k <= reports@.len(),
            reports@.len() == chunked@.len(),
            forall|j: int| 0 <= j < k ==> (#[trigger] reports@[j]).step@ == chunked@[j]@,
        decreases reports@.len() - k,
    {
        if !reports[k].step.same(&chunked[k]) {
            return false;
        }
        k = k + 1;
    }
    true
}

} // verus!
