//! What the builders hand over: every setting reaches the message it is for, and
//! no setting touches another.

use crate::client::{Connector, Subscriber, Unset};
use crate::compose::{encoded_texts, headers_of};
use crate::frame::{has_header, not_in, Frame};
use crate::model::texts;
use crate::names::lemma_encode_is_injective;
use crate::{AckMode, Message, ToServer};
use vstd::prelude::*;
use vstd::utf8::*;

verus! {

/// A SUBSCRIBE message carries the headers that were configured, all of them and
/// in order, and the acknowledgment mode.
pub proof fn law_subscription_keeps_its_headers<S: Into<String>, I: Into<String>>(
    s: Subscriber<S, I>,
    m: Message<ToServer>,
)
    requires
        call_ensures(Subscriber::<S, I>::subscribe, (s,), m),
    ensures
        m.content matches ToServer::Subscribe { ack, .. } && ack == s.ack,
        m.extra_headers@.len() == s.headers@.len(),
        forall|i: int|
            #![trigger m.extra_headers@[i]]
            #![trigger s.headers@[i]]
            0 <= i < s.headers@.len() ==> m.extra_headers@[i].0@ == encode_utf8(s.headers@[i].0@)
                && m.extra_headers@[i].1@ == encode_utf8(s.headers@[i].1@),
{
    let all = m@.extra_headers;
    let configured = encoded_texts(texts(s.headers@));
    assert(all.len() == m.extra_headers@.len());
    assert(configured.len() == s.headers@.len());
    assert forall|i: int|
        #![trigger m.extra_headers@[i]]
        #![trigger s.headers@[i]]
        0 <= i < s.headers@.len() implies m.extra_headers@[i].0@ == encode_utf8(s.headers@[i].0@)
        && m.extra_headers@[i].1@ == encode_utf8(s.headers@[i].1@) by {
        assert(all[i] == (m.extra_headers@[i].0@, m.extra_headers@[i].1@));
        assert(configured[i] == (encode_utf8(s.headers@[i].0@), encode_utf8(s.headers@[i].1@)));
    }
}

/// A SUBSCRIBE message names the destination and the identifier that were
/// configured.
pub proof fn law_subscription_is_as_configured(
    s: Subscriber<&str, String>,
    m: Message<ToServer>,
    t: Subscriber<String, &str>,
    n: Message<ToServer>,
)
    requires
        call_ensures(Subscriber::<&str, String>::subscribe, (s,), m),
        call_ensures(Subscriber::<String, &str>::subscribe, (t,), n),
    ensures
        m.content matches ToServer::Subscribe { destination, id, .. } && destination@
            == s.destination@ && id@ == s.id@,
        n.content matches ToServer::Subscribe { destination, id, .. } && destination@
            == t.destination@ && id@ == t.id@,
{
}

proof fn lemma_not_in_keeps(
    extra: Seq<(Seq<u8>, Seq<u8>)>,
    hs: Seq<(Seq<u8>, Seq<u8>)>,
    i: int,
) -> (j: int)
    requires
        0 <= i < extra.len(),
        !has_header(hs, extra[i].0),
    ensures
        0 <= j < not_in(extra, hs).len(),
        not_in(extra, hs)[j] == extra[i],
    decreases extra.len(),
{
    if i == extra.len() - 1 {
        not_in(extra, hs).len() - 1
    } else {
        assert(extra.drop_last()[i] == extra[i]);
        lemma_not_in_keeps(extra.drop_last(), hs, i)
    }
}

/// Every configured header of a subscription is in its SUBSCRIBE frame, unless
/// it is named like a field of the message: destination, id, or ack where a mode
/// was set.
pub proof fn law_subscription_headers_are_sent<'a, S: Into<String>, I: Into<String>>(
    s: Subscriber<S, I>,
    m: &'a Message<ToServer>,
    f: Frame<'a>,
    i: int,
)
    requires
        call_ensures(Subscriber::<S, I>::subscribe, (s,), *m),
        call_ensures(Message::<ToServer>::to_frame, (m,), f),
        0 <= i < s.headers@.len(),
        s.headers@[i].0@ != "destination"@,
        s.headers@[i].0@ != "id"@,
        s.headers@[i].0@ == "ack"@ ==> s.ack is None,
    ensures
        exists|j: int|
            0 <= j < f.headers@.len() && (#[trigger] f.headers@[j]).0@ == encode_utf8(
                s.headers@[i].0@,
            ) && f.headers@[j].1@ == encode_utf8(s.headers@[i].1@),
{
    law_subscription_keeps_its_headers(s, *m);
    let own = headers_of(m.content@);
    let key = s.headers@[i].0@;
    let extra = m@.extra_headers;
    assert(extra[i] == (m.extra_headers@[i].0@, m.extra_headers@[i].1@));
    lemma_encode_is_injective(key, "destination"@);
    lemma_encode_is_injective(key, "id"@);
    lemma_encode_is_injective(key, "ack"@);
    assert(!has_header(own, extra[i].0));
    let k = lemma_not_in_keeps(extra, own, i);
    let all = f@.headers;
    let j = own.len() + k;
    assert(all.len() == f.headers@.len());
    assert(all[j] == extra[i]);
    assert((f.headers@[j].0@, f.headers@[j].1@) == all[j]);
}

/// A CONNECT message carries the headers that were configured, all of them and
/// in order, the credentials and the heart-beats, and offers version 1.2 alone.
pub proof fn law_connect_keeps_its_settings<S, V: Into<String>>(
    c: Connector<S, V>,
    m: Message<ToServer>,
)
    requires
        call_ensures(Connector::<S, V>::msg, (c,), m),
    ensures
        m.content is Connect,
        m.content->accept_version@ == "1.2"@,
        m.content->login is None == c.login is None,
        c.login matches Some(login) ==> m.content->login->0@ == login@,
        m.content->passcode is None == c.passcode is None,
        c.passcode matches Some(passcode) ==> m.content->passcode->0@ == passcode@,
        m.content->heartbeat == c.heartbeat,
        m.extra_headers@.len() == c.headers@.len(),
        forall|i: int|
            #![trigger m.extra_headers@[i]]
            #![trigger c.headers@[i]]
            0 <= i < c.headers@.len() ==> m.extra_headers@[i].0@ == encode_utf8(c.headers@[i].0@)
                && m.extra_headers@[i].1@ == encode_utf8(c.headers@[i].1@),
{
    let all = m@.extra_headers;
    let configured = encoded_texts(texts(c.headers@));
    assert(all.len() == m.extra_headers@.len());
    assert(configured.len() == c.headers@.len());
    assert forall|i: int|
        #![trigger m.extra_headers@[i]]
        #![trigger c.headers@[i]]
        0 <= i < c.headers@.len() implies m.extra_headers@[i].0@ == encode_utf8(c.headers@[i].0@)
        && m.extra_headers@[i].1@ == encode_utf8(c.headers@[i].1@) by {
        assert(all[i] == (m.extra_headers@[i].0@, m.extra_headers@[i].1@));
        assert(configured[i] == (encode_utf8(c.headers@[i].0@), encode_utf8(c.headers@[i].1@)));
    }
}

/// A CONNECT message names the virtual host that was configured.
pub proof fn law_connect_names_the_virtual_host<S>(
    c: Connector<S, &str>,
    m: Message<ToServer>,
    d: Connector<S, String>,
    n: Message<ToServer>,
)
    requires
        call_ensures(Connector::<S, &str>::msg, (c,), m),
        call_ensures(Connector::<S, String>::msg, (d,), n),
    ensures
        m.content matches ToServer::Connect { host, .. } && host@ == c.virtualhost@,
        n.content matches ToServer::Connect { host, .. } && host@ == d.virtualhost@,
{
}

/// Nothing is configured to begin with: no credentials, no headers, no TLS, no
/// heart-beats, and a bound of 100 MiB on a frame. Beats would be automatic.
pub proof fn law_builders_start_empty(c: Connector<Unset, Unset>, s: Subscriber<Unset, Unset>)
    requires
        call_ensures(Connector::<Unset, Unset>::builder, (), c),
        call_ensures(Subscriber::<Unset, Unset>::builder, (), s),
    ensures
        c.login is None,
        c.passcode is None,
        c.headers@.len() == 0,
        c.use_tls == false,
        c.tls_server_name is None,
        c.max_frame_size == 104857600,
        c.heartbeat is None,
        c.auto_heartbeat == true,
        s.ack is None,
        s.headers@.len() == 0,
{
}

/// Each setting of a connection changes that setting alone.
pub proof fn law_connector_settings_are_independent<S, V>(c: Connector<S, V>)
    ensures
        forall|t: String, r: Connector<String, V>|
            #[trigger] call_ensures(Connector::<S, V>::server::<String>, (c, t), r) ==> {
                &&& r.server == t
                &&& r.virtualhost == c.virtualhost
                &&& r.login == c.login
                &&& r.passcode == c.passcode
                &&& r.headers == c.headers
                &&& r.use_tls == c.use_tls
                &&& r.tls_server_name == c.tls_server_name
                &&& r.max_frame_size == c.max_frame_size
                &&& r.heartbeat == c.heartbeat
                &&& r.auto_heartbeat == c.auto_heartbeat
            },
        forall|t: String, r: Connector<S, String>|
            #[trigger] call_ensures(Connector::<S, V>::virtualhost::<String>, (c, t), r) ==> {
                &&& r.server == c.server
                &&& r.virtualhost == t
                &&& r.login == c.login
                &&& r.passcode == c.passcode
                &&& r.headers == c.headers
                &&& r.use_tls == c.use_tls
                &&& r.tls_server_name == c.tls_server_name
                &&& r.max_frame_size == c.max_frame_size
                &&& r.heartbeat == c.heartbeat
                &&& r.auto_heartbeat == c.auto_heartbeat
            },
        forall|v: String, r: Connector<S, V>|
            #[trigger] call_ensures(Connector::<S, V>::login, (c, v), r) ==> {
                &&& r.server == c.server
                &&& r.virtualhost == c.virtualhost
                &&& r.login == Some(v)
                &&& r.passcode == c.passcode
                &&& r.headers == c.headers
                &&& r.use_tls == c.use_tls
                &&& r.tls_server_name == c.tls_server_name
                &&& r.max_frame_size == c.max_frame_size
                &&& r.heartbeat == c.heartbeat
                &&& r.auto_heartbeat == c.auto_heartbeat
            },
        forall|v: String, r: Connector<S, V>|
            #[trigger] call_ensures(Connector::<S, V>::passcode, (c, v), r) ==> {
                &&& r.server == c.server
                &&& r.virtualhost == c.virtualhost
                &&& r.login == c.login
                &&& r.passcode == Some(v)
                &&& r.headers == c.headers
                &&& r.use_tls == c.use_tls
                &&& r.tls_server_name == c.tls_server_name
                &&& r.max_frame_size == c.max_frame_size
                &&& r.heartbeat == c.heartbeat
                &&& r.auto_heartbeat == c.auto_heartbeat
            },
        forall|v: Vec<(String, String)>, r: Connector<S, V>|
            #[trigger] call_ensures(Connector::<S, V>::headers, (c, v), r) ==> {
                &&& r.server == c.server
                &&& r.virtualhost == c.virtualhost
                &&& r.login == c.login
                &&& r.passcode == c.passcode
                &&& r.headers == v
                &&& r.use_tls == c.use_tls
                &&& r.tls_server_name == c.tls_server_name
                &&& r.max_frame_size == c.max_frame_size
                &&& r.heartbeat == c.heartbeat
                &&& r.auto_heartbeat == c.auto_heartbeat
            },
        forall|v: bool, r: Connector<S, V>|
            #[trigger] call_ensures(Connector::<S, V>::use_tls, (c, v), r) ==> {
                &&& r.server == c.server
                &&& r.virtualhost == c.virtualhost
                &&& r.login == c.login
                &&& r.passcode == c.passcode
                &&& r.headers == c.headers
                &&& r.use_tls == v
                &&& r.tls_server_name == c.tls_server_name
                &&& r.max_frame_size == c.max_frame_size
                &&& r.heartbeat == c.heartbeat
                &&& r.auto_heartbeat == c.auto_heartbeat
            },
        forall|v: String, r: Connector<S, V>|
            #[trigger] call_ensures(Connector::<S, V>::tls_server_name, (c, v), r) ==> {
                &&& r.server == c.server
                &&& r.virtualhost == c.virtualhost
                &&& r.login == c.login
                &&& r.passcode == c.passcode
                &&& r.headers == c.headers
                &&& r.use_tls == c.use_tls
                &&& r.tls_server_name == Some(v)
                &&& r.max_frame_size == c.max_frame_size
                &&& r.heartbeat == c.heartbeat
                &&& r.auto_heartbeat == c.auto_heartbeat
            },
        forall|v: usize, r: Connector<S, V>|
            #[trigger] call_ensures(Connector::<S, V>::max_frame_size, (c, v), r) ==> {
                &&& r.server == c.server
                &&& r.virtualhost == c.virtualhost
                &&& r.login == c.login
                &&& r.passcode == c.passcode
                &&& r.headers == c.headers
                &&& r.use_tls == c.use_tls
                &&& r.tls_server_name == c.tls_server_name
                &&& r.max_frame_size == v
                &&& r.heartbeat == c.heartbeat
                &&& r.auto_heartbeat == c.auto_heartbeat
            },
        forall|outgoing: u32, incoming: u32, r: Connector<S, V>|
            #[trigger] call_ensures(Connector::<S, V>::heartbeat, (c, outgoing, incoming), r) ==> {
                &&& r.server == c.server
                &&& r.virtualhost == c.virtualhost
                &&& r.login == c.login
                &&& r.passcode == c.passcode
                &&& r.headers == c.headers
                &&& r.use_tls == c.use_tls
                &&& r.tls_server_name == c.tls_server_name
                &&& r.max_frame_size == c.max_frame_size
                &&& r.heartbeat == Some((outgoing, incoming))
                &&& r.auto_heartbeat == c.auto_heartbeat
            },
        forall|v: bool, r: Connector<S, V>|
            #[trigger] call_ensures(Connector::<S, V>::auto_heartbeat, (c, v), r) ==> {
                &&& r.server == c.server
                &&& r.virtualhost == c.virtualhost
                &&& r.login == c.login
                &&& r.passcode == c.passcode
                &&& r.headers == c.headers
                &&& r.use_tls == c.use_tls
                &&& r.tls_server_name == c.tls_server_name
                &&& r.max_frame_size == c.max_frame_size
                &&& r.heartbeat == c.heartbeat
                &&& r.auto_heartbeat == v
            },
{
}

/// Each setting of a subscription changes that setting alone.
pub proof fn law_subscriber_settings_are_independent<S, I>(s: Subscriber<S, I>)
    ensures
        forall|v: String, r: Subscriber<String, I>|
            #[trigger] call_ensures(Subscriber::<S, I>::destination::<String>, (s, v), r) ==> {
                &&& r.destination == v
                &&& r.id == s.id
                &&& r.ack == s.ack
                &&& r.headers == s.headers
            },
        forall|v: String, r: Subscriber<S, String>|
            #[trigger] call_ensures(Subscriber::<S, I>::id::<String>, (s, v), r) ==> {
                &&& r.destination == s.destination
                &&& r.id == v
                &&& r.ack == s.ack
                &&& r.headers == s.headers
            },
        forall|v: AckMode, r: Subscriber<S, I>|
            #[trigger] call_ensures(Subscriber::<S, I>::ack, (s, v), r) ==> {
                &&& r.destination == s.destination
                &&& r.id == s.id
                &&& r.ack == Some(v)
                &&& r.headers == s.headers
            },
        forall|v: Vec<(String, String)>, r: Subscriber<S, I>|
            #[trigger] call_ensures(Subscriber::<S, I>::headers, (s, v), r) ==> {
                &&& r.destination == s.destination
                &&& r.id == s.id
                &&& r.ack == s.ack
                &&& r.headers == v
            },
{
}

} // verus!
