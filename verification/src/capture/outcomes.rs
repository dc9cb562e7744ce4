//! What becomes of captured conversations.
use crate::bytes::{ascii, find_from, lower, occurs_at, same_ignoring_case};
use crate::capture::analysis::{
    class_of, complete_flows, contains_ignoring_case, count_class, flow_of_record, is_tls,
    mentions_upgrade, record_class, FlowClass,
};
use crate::capture::flows::FlowRecordView;
use crate::capture::http::transactions;
use crate::capture::http2::preface;
use crate::capture::segments::{ordered, payload_total};
use crate::capture::streams::{is_covered, is_piece, streams_are_put_together};
use vstd::prelude::*;

verus! {

/// Segments are a stream in pieces: each of them is one, and each byte is in one.
pub open spec fn is_cut_from(list: Seq<(u32, Seq<u8>)>, stream: Seq<u8>) -> bool {
    &&& list.len() > 0
    &&& ordered(list)
    &&& forall|i: int| 0 <= i < list.len() ==> is_piece(stream, list[0].0 as int, #[trigger] list[i])
    &&& is_covered(stream, list[0].0 as int, list)
}

proof fn earlier_flows_stay(records: Seq<FlowRecordView>, record: FlowRecordView, n: int)
    requires
        0 <= n <= records.len(),
    ensures
        complete_flows(records.push(record), n) == complete_flows(records, n),
        forall|class: FlowClass|
            #[trigger] count_class(records.push(record), n, class) == count_class(
                records,
                n,
                class,
            ),
    decreases n,
{
    if n > 0 {
        earlier_flows_stay(records, record, n - 1);
        assert(records.push(record)[n - 1] == records[n - 1]);
        assert forall|class: FlowClass|
            #[trigger] count_class(records.push(record), n, class) == count_class(
                records,
                n,
                class,
            ) by {
            assert(count_class(records.push(record), n - 1, class) == count_class(
                records,
                n - 1,
                class,
            ));
        }
    }
}

/// How many bytes of a flow came more than once.
pub open spec fn repeated_bytes(record: FlowRecordView, client: Seq<u8>, server: Seq<u8>) -> int {
    let sent = record.segments.client;
    let answered = record.segments.server;
    record.segments.duplicate_bytes + payload_total(sent, sent.len() as int) - client.len()
        + payload_total(answered, answered.len() as int) - server.len()
}

proof fn flows_hold_their_streams(record: FlowRecordView, client: Seq<u8>, server: Seq<u8>)
    requires
        is_cut_from(record.segments.client, client),
        is_cut_from(record.segments.server, server),
    ensures
        record_class(record) == class_of(client, server, false),
        flow_of_record(record).key == record.key,
        flow_of_record(record).client_to_server == client,
        flow_of_record(record).server_to_client == server,
        0 <= repeated_bytes(record, client, server) <= u64::MAX ==> flow_of_record(
            record,
        ).retransmitted_bytes == repeated_bytes(record, client, server),
{
    streams_are_put_together(client, record.segments.client[0].0 as int, record.segments.client);
    streams_are_put_together(server, record.segments.server[0].0 as int, record.segments.server);
}

/// A conversation that was captured whole is kept, with what each side sent and with the number of
/// bytes that came more than once, unless it is encrypted: then it is counted and left out.
pub proof fn whole_conversations_are_kept(
    records: Seq<FlowRecordView>,
    record: FlowRecordView,
    client: Seq<u8>,
    server: Seq<u8>,
)
    requires
        is_cut_from(record.segments.client, client),
        is_cut_from(record.segments.server, server),
        client.len() > 0,
        server.len() > 0,
    ensures
        ({
            let n = records.len() as int;
            let all = records.push(record);
            let kept = complete_flows(all, n + 1);
            let again = repeated_bytes(record, client, server);
            if is_tls(client) || is_tls(server) {
                &&& kept == complete_flows(records, n)
                &&& count_class(all, n + 1, FlowClass::EncryptedTls) == count_class(
                    records,
                    n,
                    FlowClass::EncryptedTls,
                ) + 1
            } else {
                &&& kept.len() == complete_flows(records, n).len() + 1
                &&& kept.drop_last() == complete_flows(records, n)
                &&& kept.last().key == record.key
                &&& kept.last().client_to_server == client
                &&& kept.last().server_to_client == server
                &&& 0 <= again <= u64::MAX ==> kept.last().retransmitted_bytes == again
            }
        }),
{
    let n = records.len() as int;
    let all = records.push(record);
    flows_hold_their_streams(record, client, server);
    earlier_flows_stay(records, record, n);
    assert(all[n] == record);
    let kept = complete_flows(all, n + 1);
    assert(count_class(all, n, FlowClass::EncryptedTls) == count_class(
        records,
        n,
        FlowClass::EncryptedTls,
    ));
    if !is_tls(client) && !is_tls(server) {
        assert(kept.drop_last() =~= complete_flows(records, n));
    }
}

/// What starts with a TLS record, of whatever type and version, is encrypted.
pub proof fn tls_records_are_encrypted(
    kind: u8,
    minor: u8,
    length: Seq<u8>,
    rest: Seq<u8>,
    other: Seq<u8>,
)
    requires
        kind == 20 || kind == 21 || kind == 22 || kind == 23,
        minor <= 4,
        length.len() == 2,
        other.len() > 0,
    ensures
        class_of(seq![kind, 3, minor] + length + rest, other, false) == FlowClass::EncryptedTls,
        class_of(other, seq![kind, 3, minor] + length + rest, false) == FlowClass::EncryptedTls,
{
    let s = seq![kind, 3u8, minor] + length + rest;
    assert(s[0] == kind && s[1] == 3 && s[2] == minor);
}

/// A conversation of which one side said nothing, or of which bytes are missing, is incomplete,
/// whatever it carries.
pub proof fn one_sided_conversations_are_incomplete(some: Seq<u8>, other: Seq<u8>)
    ensures
        class_of(some, Seq::empty(), false) == FlowClass::Incomplete,
        class_of(Seq::empty(), some, false) == FlowClass::Incomplete,
        class_of(some, other, true) == FlowClass::Incomplete,
{
}

proof fn word_is_found(s: Seq<u8>, word: Seq<u8>, from: int, at: int)
    requires
        0 <= from <= at <= s.len() - word.len(),
        occurs_at(s, word, at),
    ensures
        find_from(s, word, from) is Some,
    decreases at - from,
{
    if !occurs_at(s, word, from) {
        word_is_found(s, word, from + 1, at);
    }
}

/// A conversation in HTTP that names an upgrade, in whatever case and on whichever side, is one that
/// changes protocols, where it cannot be read as transactions.
pub proof fn upgrades_are_noticed(
    line: Seq<u8>,
    head: Seq<u8>,
    word: Seq<u8>,
    rest: Seq<u8>,
    other: Seq<u8>,
)
    requires
        same_ignoring_case(word, ascii("Upgrade:"@)) || same_ignoring_case(
            word,
            ascii("Connection: Upgrade"@),
        ),
        other.len() > 0,
        !is_tls(other),
    ensures
        ({
            let speaker = line + ascii(" HTTP/"@) + head + word + rest;
            !is_tls(speaker) && !occurs_at(speaker, preface(), 0) && transactions(speaker, other)
                is None ==> class_of(speaker, other, false) == FlowClass::HttpUpgrade
        }),
        ({
            let client = line + ascii(" HTTP/"@) + head;
            let server = rest + word + other;
            !is_tls(client) && !is_tls(server) && !occurs_at(client, preface(), 0) && transactions(
                client,
                server,
            ) is None ==> class_of(client, server, false) == FlowClass::HttpUpgrade
        }),
{
    let mark = ascii(" HTTP/"@);
    reveal_strlit(" HTTP/");
    let at = line.len() as int;
    let speaker = line + mark + head + word + rest;
    assert(speaker.subrange(at, at + mark.len()) =~= mark);
    word_is_found(speaker, mark, 0, at);
    let client = line + mark + head;
    assert(client.subrange(at, at + mark.len()) =~= mark);
    word_is_found(client, mark, 0, at);
    words_are_upgrades(word);
    upgrade_is_mentioned(line + mark + head, word, rest);
    upgrade_is_mentioned(rest, word, other);
    assert(speaker =~= (line + mark + head) + word + rest);
}

proof fn words_are_upgrades(word: Seq<u8>)
    requires
        same_ignoring_case(word, ascii("Upgrade:"@)) || same_ignoring_case(
            word,
            ascii("Connection: Upgrade"@),
        ),
    ensures
        same_ignoring_case(word, ascii("upgrade:"@)) || same_ignoring_case(
            word,
            ascii("connection: upgrade"@),
        ),
        word.len() > 0,
{
    reveal_strlit("Upgrade:");
    reveal_strlit("Connection: Upgrade");
    reveal_strlit("upgrade:");
    reveal_strlit("connection: upgrade");
    let a = ascii("Upgrade:"@);
    let b = ascii("upgrade:"@);
    assert forall|i: int| 0 <= i < a.len() implies lower(#[trigger] a[i]) == lower(b[i]) by {}
    let c = ascii("Connection: Upgrade"@);
    let d = ascii("connection: upgrade"@);
    assert forall|i: int| 0 <= i < c.len() implies lower(#[trigger] c[i]) == lower(d[i]) by {}
}

proof fn upgrade_is_mentioned(front: Seq<u8>, word: Seq<u8>, rest: Seq<u8>)
    requires
        same_ignoring_case(word, ascii("upgrade:"@)) || same_ignoring_case(
            word,
            ascii("connection: upgrade"@),
        ),
    ensures
        mentions_upgrade(front + word + rest),
{
    let s = front + word + rest;
    let at = front.len() as int;
    assert(s.subrange(at, at + word.len()) =~= word);
    if same_ignoring_case(word, ascii("upgrade:"@)) {
        let needle = ascii("upgrade:"@);
        assert(same_ignoring_case(s.subrange(at, at + needle.len()), needle));
        assert(contains_ignoring_case(s, needle));
    } else {
        let needle = ascii("connection: upgrade"@);
        assert(same_ignoring_case(s.subrange(at, at + needle.len()), needle));
        assert(contains_ignoring_case(s, needle));
    }
}

/// What does not name HTTP is not taken for HTTP.
pub proof fn other_conversations_are_not_http(client: Seq<u8>, server: Seq<u8>)
    requires
        client.len() > 0,
        server.len() > 0,
        !is_tls(client),
        !is_tls(server),
        transactions(client, server) is None,
        forall|i: int|
            0 <= i <= client.len() - 5 ==> #[trigger] client.subrange(i, i + 5) != ascii("HTTP/"@),
        !occurs_at(client, preface(), 0),
    ensures
        class_of(client, server, false) == FlowClass::NonHttp,
{
    reveal_strlit("HTTP/");
    reveal_strlit(" HTTP/");
    if occurs_at(client, ascii("HTTP/"@), 0) {
        assert(client.subrange(0, 5) =~= ascii("HTTP/"@));
    }
    word_is_nowhere(client, ascii(" HTTP/"@), 0);
}

proof fn word_is_nowhere(client: Seq<u8>, word: Seq<u8>, from: int)
    requires
        0 <= from,
        word == ascii(" HTTP/"@),
        forall|i: int|
            0 <= i <= client.len() - 5 ==> #[trigger] client.subrange(i, i + 5) != ascii("HTTP/"@),
    ensures
        find_from(client, word, from) is None,
    decreases client.len() - from,
{
    reveal_strlit("HTTP/");
    reveal_strlit(" HTTP/");
    if from + word.len() <= client.len() {
        if occurs_at(client, word, from) {
            assert(client.subrange(from + 1, from + 1 + 5) =~= ascii("HTTP/"@)) by {
                assert forall|k: int| 0 <= k < 5 implies client[from + 1 + k] == #[trigger] ascii(
                    "HTTP/"@,
                )[k] by {
                    assert(client.subrange(from, from + word.len())[k + 1] == word[k + 1]);
                }
            }
        }
        word_is_nowhere(client, word, from + 1);
    }
}

} // verus!
