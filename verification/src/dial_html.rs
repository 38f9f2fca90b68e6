//! The dialogue tree of a plugin (topics and their responses) and its HTML
//! page for review.
use vstd::prelude::*;
use std::collections::HashMap;
use crate::types::{SkyString, SkyStringView};
use crate::text::{chars_of, string_from_chars, extend_chars, sort_indices_by_keys, stable_sorted};

verus! {

/// One response of a topic.
#[derive(Debug, Clone)]
pub struct InfoEntry {
    pub response: String,
    pub response_trans: String,
    pub prompt: Option<String>,
    pub info_form_id: u32,
}

/// One topic and its responses.
#[derive(Debug, Clone)]
pub struct DialEntry {
    pub topic: String,
    pub topic_trans: String,
    pub dial_form_id: u32,
    pub responses: Vec<InfoEntry>,
}

/// Signature `DIAL`.
pub open spec fn sig_dial() -> Seq<u8> { seq![0x44u8, 0x49, 0x41, 0x4C] }
/// Signature `INFO`.
pub open spec fn sig_info() -> Seq<u8> { seq![0x49u8, 0x4E, 0x46, 0x4F] }
/// Signature `RNAM`.
pub open spec fn sig_rnam() -> Seq<u8> { seq![0x52u8, 0x4E, 0x41, 0x4D] }
/// Signature `NAM1`.
pub open spec fn sig_nam1() -> Seq<u8> { seq![0x4Eu8, 0x41, 0x4D, 0x31] }

/// Whether string `s` belongs to a record with signature `sig`.
pub open spec fn of_record(s: SkyStringView, sig: Seq<u8>) -> bool {
    s.record_sig@ == sig
}

/// The form ids of the records with signature `sig` among the first `n`
/// strings, each once, in the order they first appear.
pub open spec fn form_ids(ss: Seq<SkyStringView>, sig: Seq<u8>, n: int) -> Seq<u32>
    decreases n,
{
    if n <= 0 || n > ss.len() {
        Seq::empty()
    } else {
        let prev = form_ids(ss, sig, n - 1);
        let s = ss[n - 1];
        if of_record(s, sig) && !prev.contains(s.esp_ptr.form_id) { prev.push(s.esp_ptr.form_id) } else { prev }
    }
}

/// The last of the first `n` strings of a topic with form id `id`.
pub open spec fn last_topic(ss: Seq<SkyStringView>, id: u32, n: int) -> Option<int>
    decreases n,
{
    if n <= 0 || n > ss.len() {
        None
    } else if of_record(ss[n - 1], sig_dial()) && ss[n - 1].esp_ptr.form_id == id {
        Some(n - 1)
    } else {
        last_topic(ss, id, n - 1)
    }
}

/// The parent form id of response `id`: that of its first string.
pub open spec fn first_info_parent(ss: Seq<SkyStringView>, id: u32, k: int) -> u32
    decreases ss.len() - k,
{
    if k < 0 || k >= ss.len() {
        0
    } else if of_record(ss[k], sig_info()) && ss[k].esp_ptr.form_id == id {
        ss[k].parent_form_id
    } else {
        first_info_parent(ss, id, k + 1)
    }
}

/// The last of the first `n` strings of response `id` whose field has
/// signature `field`.
pub open spec fn last_info_field(ss: Seq<SkyStringView>, id: u32, field: Seq<u8>, n: int) -> Option<int>
    decreases n,
{
    if n <= 0 || n > ss.len() {
        None
    } else if of_record(ss[n - 1], sig_info()) && ss[n - 1].esp_ptr.form_id == id && ss[n - 1].field_sig@ == field {
        Some(n - 1)
    } else {
        last_info_field(ss, id, field, n - 1)
    }
}

/// A response as plain values.
pub struct InfoV {
    pub response: Seq<char>,
    pub response_trans: Seq<char>,
    pub prompt: Option<Seq<char>>,
    pub info_form_id: u32,
}

/// A topic as plain values.
pub struct DialV {
    pub topic: Seq<char>,
    pub topic_trans: Seq<char>,
    pub dial_form_id: u32,
    pub responses: Seq<InfoV>,
}

impl View for InfoEntry {
    type V = InfoV;

    open spec fn view(&self) -> InfoV {
        InfoV {
            response: self.response@,
            response_trans: self.response_trans@,
            prompt: crate::esp::parser::opt_text(self.prompt),
            info_form_id: self.info_form_id,
        }
    }
}

/// The views of a list of responses.
pub open spec fn infos_view(v: Seq<InfoEntry>) -> Seq<InfoV> {
    v.map_values(|i: InfoEntry| i@)
}

impl View for DialEntry {
    type V = DialV;

    open spec fn view(&self) -> DialV {
        DialV {
            topic: self.topic@,
            topic_trans: self.topic_trans@,
            dial_form_id: self.dial_form_id,
            responses: infos_view(self.responses@),
        }
    }
}

/// The response `id` as its last `NAM1` string (and last `RNAM` string as
/// prompt) give it; `None` when it has no `NAM1` string.
pub open spec fn info_of(ss: Seq<SkyStringView>, id: u32) -> Option<InfoV> {
    match last_info_field(ss, id, sig_nam1(), ss.len() as int) {
        Some(k) => Some(InfoV {
            response: ss[k].source,
            response_trans: ss[k].translation,
            prompt: match last_info_field(ss, id, sig_rnam(), ss.len() as int) {
                Some(p) => Some(ss[p].source),
                None => None,
            },
            info_form_id: id,
        }),
        None => None,
    }
}

/// The responses of topic `dial` among the first `n` response ids, in the
/// order the responses first appear.
pub open spec fn responses_of(ss: Seq<SkyStringView>, infos: Seq<u32>, dial: u32, n: int) -> Seq<InfoV>
    decreases n,
{
    if n <= 0 || n > infos.len() {
        Seq::empty()
    } else {
        let prev = responses_of(ss, infos, dial, n - 1);
        let id = infos[n - 1];
        if first_info_parent(ss, id, 0) == dial && info_of(ss, id) is Some { prev.push(info_of(ss, id)->0) } else { prev }
    }
}

/// The topic `id` with its last `DIAL` string's texts and its responses.
pub open spec fn dial_of(ss: Seq<SkyStringView>, id: u32) -> DialV {
    let k = last_topic(ss, id, ss.len() as int)->0;
    DialV {
        topic: ss[k].source,
        topic_trans: ss[k].translation,
        dial_form_id: id,
        responses: responses_of(ss, form_ids(ss, sig_info(), ss.len() as int), id, form_ids(ss, sig_info(), ss.len() as int).len() as int),
    }
}

/// The views of a list of strings.
pub open spec fn views_of(ss: Seq<SkyString>) -> Seq<SkyStringView> {
    ss.map_values(|s: SkyString| s@)
}

/// The topics of a list of strings, in the order they first appear.
pub open spec fn topics_in_order(ss: Seq<SkyStringView>) -> Seq<DialV> {
    let ids = form_ids(ss, sig_dial(), ss.len() as int);
    Seq::new(ids.len(), |i: int| dial_of(ss, ids[i]))
}

/// The names of topics.
pub open spec fn topic_keys(ts: Seq<DialV>) -> Seq<Seq<char>> {
    ts.map_values(|t: DialV| t.topic)
}

/// Whether a four-byte signature is `a b c d`.
fn sig4_is(x: &[u8; 4], a: u8, b: u8, c: u8, d: u8) -> (r: bool)
    ensures
        r == (x@ == seq![a, b, c, d]),
{
    crate::esp::parser::sig_is(x, a, b, c, d)
}

/// An index of distinct form ids: the ids in first-appearance order and
/// the position of each.
pub open spec fn index_ok(ids: Seq<u32>, pos: Map<u32, usize>) -> bool {
    &&& forall|id: u32| #[trigger] pos.contains_key(id) <==> ids.contains(id)
    &&& forall|p: int| 0 <= p < ids.len() ==> #[trigger] pos[ids[p]] == p
}

proof fn lemma_index_push(ids: Seq<u32>, pos: Map<u32, usize>, id: u32)
    requires
        index_ok(ids, pos),
        !ids.contains(id),
        ids.len() <= usize::MAX,
    ensures
        index_ok(ids.push(id), pos.insert(id, ids.len() as usize)),
{
    let ids2 = ids.push(id);
    let pos2 = pos.insert(id, ids.len() as usize);
    assert forall|x: u32| #[trigger] pos2.contains_key(x) <==> ids2.contains(x) by {
        if ids2.contains(x) && x != id {
            let i = choose|i: int| 0 <= i < ids2.len() && ids2[i] == x;
            assert(ids[i] == x);
            assert(ids.contains(x));
        }
        if ids.contains(x) {
            let i = choose|i: int| 0 <= i < ids.len() && ids[i] == x;
            assert(ids2[i] == x);
        }
        if x == id {
            assert(ids2[ids.len() as int] == id);
        }
    }
    assert forall|p: int| 0 <= p < ids2.len() implies #[trigger] pos2[ids2[p]] == p by {
        if p < ids.len() {
            assert(ids2[p] == ids[p]);
            assert(ids.contains(ids[p]));
        }
    }
}

proof fn lemma_form_ids_contains(ss: Seq<SkyStringView>, sig: Seq<u8>, n: int, id: u32)
    requires
        0 <= n <= ss.len(),
    ensures
        form_ids(ss, sig, n).contains(id) <==> exists|i: int| 0 <= i < n && of_record(#[trigger] ss[i], sig)
            && ss[i].esp_ptr.form_id == id,
    decreases n,
{
    if n > 0 {
        lemma_form_ids_contains(ss, sig, n - 1, id);
        let prev = form_ids(ss, sig, n - 1);
        if of_record(ss[n - 1], sig) && !prev.contains(ss[n - 1].esp_ptr.form_id) {
            if ss[n - 1].esp_ptr.form_id == id {
                assert(prev.push(id)[prev.len() as int] == id);
            }
            let pp = prev.push(ss[n - 1].esp_ptr.form_id);
            if pp.contains(id) && ss[n - 1].esp_ptr.form_id != id {
                let i = choose|i: int| 0 <= i < pp.len() && #[trigger] pp[i] == id;
                assert(prev[i] == id);
            }
            if prev.contains(id) {
                let i = choose|i: int| 0 <= i < prev.len() && prev[i] == id;
                assert(prev.push(ss[n - 1].esp_ptr.form_id)[i] == id);
            }
        }
    }
}

proof fn lemma_first_parent_skip(ss: Seq<SkyStringView>, id: u32, j: int)
    requires
        0 <= j <= ss.len(),
        forall|i: int| 0 <= i < j ==> !(of_record(#[trigger] ss[i], sig_info()) && ss[i].esp_ptr.form_id == id),
    ensures
        first_info_parent(ss, id, 0) == first_info_parent(ss, id, j),
    decreases j,
{
    if j > 0 {
        lemma_first_parent_skip(ss, id, j - 1);
    }
}

proof fn lemma_last_field_none(ss: Seq<SkyStringView>, id: u32, f: Seq<u8>, j: int)
    requires
        0 <= j <= ss.len(),
        forall|i: int| 0 <= i < j ==> !(of_record(#[trigger] ss[i], sig_info()) && ss[i].esp_ptr.form_id == id),
    ensures
        last_info_field(ss, id, f, j) is None,
    decreases j,
{
    if j > 0 {
        lemma_last_field_none(ss, id, f, j - 1);
    }
}

proof fn lemma_last_field_found(ss: Seq<SkyStringView>, id: u32, f: Seq<u8>, j: int)
    requires
        0 <= j <= ss.len(),
    ensures
        match last_info_field(ss, id, f, j) {
            Some(x) => 0 <= x < j && of_record(ss[x], sig_info()) && ss[x].esp_ptr.form_id == id && ss[x].field_sig@ == f,
            None => true,
        },
    decreases j,
{
    if j > 0 {
        lemma_last_field_found(ss, id, f, j - 1);
    }
}

proof fn lemma_last_topic_found(ss: Seq<SkyStringView>, id: u32, j: int)
    requires
        0 <= j <= ss.len(),
    ensures
        match last_topic(ss, id, j) {
            Some(x) => 0 <= x < j,
            None => true,
        },
    decreases j,
{
    if j > 0 {
        lemma_last_topic_found(ss, id, j - 1);
    }
}

proof fn lemma_form_ids_step(ss: Seq<SkyStringView>, sig: Seq<u8>, n: int)
    requires
        0 < n <= ss.len(),
    ensures
        form_ids(ss, sig, n) == (if of_record(ss[n - 1], sig) && !form_ids(ss, sig, n - 1).contains(ss[n - 1].esp_ptr.form_id) {
            form_ids(ss, sig, n - 1).push(ss[n - 1].esp_ptr.form_id)
        } else {
            form_ids(ss, sig, n - 1)
        }),
{
}

/// Pushes a response onto a list.
fn push_info(v: &mut Vec<InfoEntry>, x: InfoEntry)
    ensures
        final(v)@ == old(v)@.push(x),
{
    v.push(x);
}

/// The dialogue tree of a list of strings: each topic (the last `DIAL`
/// string of a form id gives its texts) with its responses (each `INFO`
/// form id whose first string's parent is the topic and that has a `NAM1`
/// string), topics sorted by name (ties in order of appearance), responses
/// in order of appearance.
pub fn build_dial_tree(strings: &[SkyString]) -> (r: Vec<DialEntry>)
    ensures
        ({
            let ss = views_of(strings@);
            let ts = topics_in_order(ss);
            &&& r@.len() == ts.len()
            &&& exists|p: Seq<usize>| #[trigger] stable_sorted(topic_keys(ts), p)
                && forall|i: int| 0 <= i < r@.len() ==> #[trigger] r@[i]@ == ts[p[i] as int]
        }),
{
    let ghost ss = views_of(strings@);
    let n = strings.len();
    let mut dial_ids: Vec<u32> = Vec::new();
    let mut dial_pos: HashMap<u32, usize> = HashMap::new();
    let mut dial_last: Vec<usize> = Vec::new();
    let mut info_ids: Vec<u32> = Vec::new();
    let mut info_pos: HashMap<u32, usize> = HashMap::new();
    let mut info_parent: Vec<u32> = Vec::new();
    let mut info_rnam: Vec<Option<usize>> = Vec::new();
    let mut info_nam1: Vec<Option<usize>> = Vec::new();
    let mut k: usize = 0;
    while k < n
        invariant
            k <= n,
            n == strings@.len(),
            ss == views_of(strings@),
            dial_ids@ == form_ids(ss, sig_dial(), k as int),
            index_ok(dial_ids@, dial_pos@),
            dial_last@.len() == dial_ids@.len(),
            forall|p: int| 0 <= p < dial_ids@.len() ==> last_topic(ss, dial_ids@[p], k as int) == Some(#[trigger] dial_last@[p] as int),
            info_ids@ == form_ids(ss, sig_info(), k as int),
            index_ok(info_ids@, info_pos@),
            info_parent@.len() == info_ids@.len(),
            info_rnam@.len() == info_ids@.len(),
            info_nam1@.len() == info_ids@.len(),
            forall|p: int| 0 <= p < info_ids@.len() ==> first_info_parent(ss, info_ids@[p], 0) == #[trigger] info_parent@[p],
            forall|p: int| 0 <= p < info_ids@.len() ==> last_info_field(ss, info_ids@[p], sig_rnam(), k as int)
                == match #[trigger] info_rnam@[p] { Some(x) => Some(x as int), None => None },
            forall|p: int| 0 <= p < info_ids@.len() ==> last_info_field(ss, info_ids@[p], sig_nam1(), k as int)
                == match #[trigger] info_nam1@[p] { Some(x) => Some(x as int), None => None },
        decreases n - k,
    {
        let s = &strings[k];
        assert(ss[k as int] == s@);
        let id = s.esp_ptr.form_id;
        proof {
            lemma_form_ids_step(ss, sig_dial(), k + 1);
            lemma_form_ids_step(ss, sig_info(), k + 1);
        }
        if sig4_is(&s.record_sig, 0x44, 0x49, 0x41, 0x4C) {
            match dial_pos.get(&id) {
                Some(p) => {
                    let p = *p;
                    dial_last.set(p, k);
                },
                None => {
                    let q = dial_ids.len();
                    proof {
                        lemma_index_push(dial_ids@, dial_pos@, id);
                    }
                    dial_pos.insert(id, q);
                    dial_ids.push(id);
                    dial_last.push(k);
                },
            }
        } else if sig4_is(&s.record_sig, 0x49, 0x4E, 0x46, 0x4F) {
            let p = match info_pos.get(&id) {
                Some(p) => {
                    proof {
                        assert(info_ids@.contains(id));
                        let q = choose|q: int| 0 <= q < info_ids@.len() && info_ids@[q] == id;
                        assert(info_pos@[info_ids@[q]] == q);
                    }
                    *p
                },
                None => {
                    let q = info_ids.len();
                    proof {
                        lemma_index_push(info_ids@, info_pos@, id);
                        lemma_form_ids_contains(ss, sig_info(), k as int, id);
                        lemma_first_parent_skip(ss, id, k as int);
                        lemma_last_field_none(ss, id, sig_rnam(), k as int);
                        lemma_last_field_none(ss, id, sig_nam1(), k as int);
                    }
                    info_pos.insert(id, q);
                    info_ids.push(id);
                    info_parent.push(s.parent_form_id);
                    info_rnam.push(None);
                    info_nam1.push(None);
                    q
                },
            };
            assert(info_ids@[p as int] == id);
            proof {
                assert forall|q: int| 0 <= q < info_ids@.len() && q != p implies info_ids@[q] != id by {
                    assert(info_pos@[info_ids@[q]] == q);
                }
            }
            if sig4_is(&s.field_sig, 0x52, 0x4E, 0x41, 0x4D) {
                info_rnam.set(p, Some(k));
            } else if sig4_is(&s.field_sig, 0x4E, 0x41, 0x4D, 0x31) {
                info_nam1.set(p, Some(k));
            }
        }
        k = k + 1;
    }
    let ghost infos = info_ids@;
    let nd = dial_ids.len();
    let mut resp: Vec<Vec<InfoEntry>> = Vec::new();
    while resp.len() < nd
        invariant
            resp@.len() <= nd,
            nd == dial_ids@.len(),
            forall|d: int| 0 <= d < resp@.len() ==> #[trigger] resp@[d]@.len() == 0,
        decreases nd - resp@.len(),
    {
        resp.push(Vec::new());
    }
    proof {
        assert forall|d: int| 0 <= d < nd implies #[trigger] infos_view(resp@[d]@)
            == responses_of(ss, infos, dial_ids@[d], 0) by {
            assert(infos_view(resp@[d]@) =~= Seq::<InfoV>::empty());
        }
    }
    let ni = info_ids.len();
    let mut p: usize = 0;
    while p < ni
        invariant
            p <= ni,
            ni == info_ids@.len(),
            infos == info_ids@,
            n == strings@.len(),
            ss == views_of(strings@),
            nd == dial_ids@.len(),
            index_ok(dial_ids@, dial_pos@),
            infos == form_ids(ss, sig_info(), n as int),
            info_parent@.len() == infos.len(),
            info_rnam@.len() == infos.len(),
            info_nam1@.len() == infos.len(),
            forall|q: int| 0 <= q < infos.len() ==> first_info_parent(ss, infos[q], 0) == #[trigger] info_parent@[q],
            forall|q: int| 0 <= q < infos.len() ==> last_info_field(ss, infos[q], sig_rnam(), n as int)
                == match #[trigger] info_rnam@[q] { Some(x) => Some(x as int), None => None },
            forall|q: int| 0 <= q < infos.len() ==> last_info_field(ss, infos[q], sig_nam1(), n as int)
                == match #[trigger] info_nam1@[q] { Some(x) => Some(x as int), None => None },
            resp@.len() == nd,
            forall|d: int| 0 <= d < nd ==> #[trigger] infos_view(resp@[d]@)
                == responses_of(ss, infos, dial_ids@[d], p as int),
        decreases ni - p,
    {
        let id = info_ids[p];
        let parent = info_parent[p];
        match info_nam1[p] {
            Some(x) => {
                assert(last_info_field(ss, id, sig_nam1(), n as int) == Some(x as int));
                proof {
                    lemma_last_field_found(ss, id, sig_nam1(), n as int);
                    lemma_last_field_found(ss, id, sig_rnam(), n as int);
                }
                let prompt = match info_rnam[p] {
                    Some(y) => Some(strings[y].source.clone()),
                    None => None,
                };
                let entry = InfoEntry {
                    response: strings[x].source.clone(),
                    response_trans: strings[x].translation.clone(),
                    prompt,
                    info_form_id: id,
                };
                assert(info_of(ss, id) == Some(entry@));
                match dial_pos.get(&parent) {
                    Some(d) => {
                        let d = *d;
                        proof {
                            assert(dial_ids@.contains(parent));
                            let q = choose|q: int| 0 <= q < dial_ids@.len() && dial_ids@[q] == parent;
                            assert(dial_pos@[dial_ids@[q]] == q);
                        }
                        let ghost before = resp@;
                        push_info(&mut resp[d], entry);
                        proof {
                            assert forall|e: int| 0 <= e < nd implies #[trigger] infos_view(resp@[e]@)
                                == responses_of(ss, infos, dial_ids@[e], p + 1) by {
                                if e == d {
                                    assert(infos_view(resp@[e]@)
                                        =~= infos_view(before[e]@).push(entry@));
                                } else {
                                    assert(dial_pos@[dial_ids@[e]] == e);
                                    assert(dial_ids@[e] != parent);
                                    assert(resp@[e] == before[e]);
                                }
                            }
                        }
                    },
                    None => {
                        proof {
                            assert forall|e: int| 0 <= e < nd implies dial_ids@[e] != parent by {
                                assert(dial_ids@.contains(dial_ids@[e]));
                            }
                        }
                    },
                }
            },
            None => {
                assert(info_of(ss, id) is None);
            },
        }
        p = p + 1;
    }
    let ghost ts = topics_in_order(ss);
    let mut unsorted: Vec<DialEntry> = Vec::new();
    let mut keys: Vec<Vec<char>> = Vec::new();
    let mut d: usize = 0;
    while d < nd
        invariant
            d <= nd,
            nd == dial_ids@.len(),
            n == strings@.len(),
            ss == views_of(strings@),
            ts == topics_in_order(ss),
            dial_ids@ == form_ids(ss, sig_dial(), n as int),
            infos == form_ids(ss, sig_info(), n as int),
            dial_last@.len() == nd,
            forall|q: int| 0 <= q < nd ==> last_topic(ss, dial_ids@[q], n as int) == Some(#[trigger] dial_last@[q] as int),
            resp@.len() == nd,
            forall|e: int| d <= e < nd ==> #[trigger] infos_view(resp@[e]@) == responses_of(ss, infos, dial_ids@[e], infos.len() as int),
            unsorted@.len() == d,
            keys@.len() == d,
            forall|e: int| 0 <= e < d ==> #[trigger] unsorted@[e]@ == ts[e],
            forall|e: int| 0 <= e < d ==> #[trigger] keys@[e]@ == ts[e].topic,
        decreases nd - d,
    {
        let k = dial_last[d];
        proof {
            lemma_last_topic_found(ss, dial_ids@[d as int], n as int);
        }
        let mut taken: Vec<InfoEntry> = Vec::new();
        let ghost before = resp@;
        core::mem::swap(&mut resp[d], &mut taken);
        proof {
            assert forall|e: int| d < e < nd implies #[trigger] infos_view(resp@[e]@) == responses_of(ss, infos, dial_ids@[e], infos.len() as int) by {
                assert(resp@[e] == before[e]);
            }
        }
        let entry = DialEntry {
            topic: strings[k].source.clone(),
            topic_trans: strings[k].translation.clone(),
            dial_form_id: dial_ids[d],
            responses: taken,
        };
        assert(entry@ == ts[d as int]);
        keys.push(chars_of(strings[k].source.as_str()));
        unsorted.push(entry);
        d = d + 1;
    }
    let order = sort_indices_by_keys(&keys);
    proof {
        assert(keys@.map_values(|k: Vec<char>| k@) =~= topic_keys(ts));
    }
    let ghost orig = unsorted@;
    let mut out: Vec<DialEntry> = Vec::new();
    let mut i: usize = 0;
    while i < nd
        invariant
            i <= nd,
            nd == ts.len(),
            orig.len() == nd,
            unsorted@.len() == nd,
            forall|e: int| 0 <= e < nd ==> #[trigger] orig[e]@ == ts[e],
            stable_sorted(topic_keys(ts), order@),
            forall|e: int| 0 <= e < nd && !(exists|t: int| 0 <= t < i && order@[t] == e) ==> #[trigger] unsorted@[e] == orig[e],
            out@.len() == i,
            forall|t: int| 0 <= t < i ==> #[trigger] out@[t]@ == ts[order@[t] as int],
        decreases nd - i,
    {
        let j = order[i];
        let mut slot = DialEntry { topic: String::new(), topic_trans: String::new(), dial_form_id: 0, responses: Vec::new() };
        let ghost before = unsorted@;
        proof {
            assert(!(exists|t: int| 0 <= t < i && order@[t] == j)) by {
                if exists|t: int| 0 <= t < i && order@[t] == j {
                    let t = choose|t: int| 0 <= t < i && order@[t] == j;
                    assert(order@[t] != order@[i as int]);
                }
            }
        }
        core::mem::swap(&mut unsorted[j], &mut slot);
        out.push(slot);
        proof {
            assert forall|e: int| 0 <= e < nd && !(exists|t: int| 0 <= t < i + 1 && order@[t] == e) implies #[trigger] unsorted@[e] == orig[e] by {
                assert(e != j);
                assert(unsorted@[e] == before[e]);
                if exists|t: int| 0 <= t < i && order@[t] == e {
                    let t = choose|t: int| 0 <= t < i && order@[t] == e;
                    assert(exists|t2: int| 0 <= t2 < i + 1 && order@[t2] == e);
                }
            }
        }
        i = i + 1;
    }
    out
}

/// The HTML escape of one character.
pub open spec fn escape_char(c: char) -> Seq<char> {
    if c == '&' {
        "&amp;"@
    } else if c == '<' {
        "&lt;"@
    } else if c == '>' {
        "&gt;"@
    } else if c == '"' {
        "&quot;"@
    } else {
        seq![c]
    }
}

/// `s` with `&`, `<`, `>` and `"` written as entities.
pub open spec fn escape_html(s: Seq<char>) -> Seq<char>
    decreases s.len(),
{
    if s.len() == 0 { Seq::empty() } else { escape_html(s.drop_last()) + escape_char(s.last()) }
}

/// Appends the HTML escape of a string (see [`escape_html`]).
fn push_escaped(out: &mut Vec<char>, s: &String)
    ensures
        final(out)@ == old(out)@ + escape_html(s@),
{
    let cs = chars_of(s.as_str());
    let mut i: usize = 0;
    while i < cs.len()
        invariant
            i <= cs@.len(),
            cs@ == s@,
            out@ == old(out)@ + escape_html(cs@.take(i as int)),
        decreases cs@.len() - i,
    {
        let c = cs[i];
        if c == '&' {
            crate::header_processor::push_lit(out, "&amp;");
        } else if c == '<' {
            crate::header_processor::push_lit(out, "&lt;");
        } else if c == '>' {
            crate::header_processor::push_lit(out, "&gt;");
        } else if c == '"' {
            crate::header_processor::push_lit(out, "&quot;");
        } else {
            out.push(c);
        }
        assert(cs@.take(i + 1).drop_last() =~= cs@.take(i as int));
        assert(out@ =~= old(out)@ + escape_html(cs@.take(i + 1)));
        i = i + 1;
    }
    assert(cs@.take(cs@.len() as int) =~= cs@);
}

/// The lines of one response.
pub open spec fn info_html(i: InfoV) -> Seq<char> {
    (match i.prompt {
        Some(p) => "<div class=\"info-response\"><span class=\"prompt\">["@ + escape_html(p) + "]</span> "@,
        None => "<div class=\"info-response\">"@,
    })
        + "<span class=\"response\">"@ + escape_html(i.response) + "</span>"@
        + (if i.response_trans.len() > 0 {
            " <span class=\"trans\">→ "@ + escape_html(i.response_trans) + "</span>"@
        } else {
            Seq::empty()
        })
        + "</div>\n"@
}

/// The lines of the first `n` responses.
pub open spec fn infos_html(is: Seq<InfoV>, n: int) -> Seq<char>
    decreases n,
{
    if n <= 0 || n > is.len() { Seq::empty() } else { infos_html(is, n - 1) + info_html(is[n - 1]) }
}

/// The lines of one topic: its name and form id, its translation when it
/// has one, and its responses (or a line saying it has none).
pub open spec fn dial_html_block(d: DialV) -> Seq<char> {
    "<div class=\"dial-topic\">"@ + escape_html(d.topic) + " <small>["@
        + crate::header_processor::hex8_upper(d.dial_form_id) + "]</small></div>\n"@
        + (if d.topic_trans.len() > 0 {
            "<div class=\"info-response\"><span class=\"trans\">→ "@ + escape_html(d.topic_trans) + "</span></div>\n"@
        } else {
            Seq::empty()
        })
        + (if d.responses.len() == 0 {
            "<div class=\"no-response\">（无回复）</div>\n"@
        } else {
            infos_html(d.responses, d.responses.len() as int)
        })
}

/// The translation span written for a topic's translation.
pub open spec fn topic_trans_span(t: Seq<char>) -> Seq<char> {
    "<span class=\"trans\">→ "@ + escape_html(t) + "</span>"@
}

/// For a response whose translation is not empty, its line shows the
/// escaped response and, after it, the escaped translation in a
/// translation span.
pub proof fn law_response_translation_shown(i: InfoV)
    requires
        i.response_trans.len() > 0,
    ensures
        exists|p: int, q: int| 0 <= p && p + escape_html(i.response).len() <= q
            && q + topic_trans_span(i.response_trans).len() <= info_html(i).len()
            && #[trigger] info_html(i).subrange(p, p + escape_html(i.response).len()) == escape_html(i.response)
            && #[trigger] info_html(i).subrange(q, q + topic_trans_span(i.response_trans).len()) == topic_trans_span(i.response_trans),
{
    reveal_strlit(" <span class=\"trans\">→ ");
    reveal_strlit("<span class=\"trans\">→ ");
    reveal_strlit("</span>");
    let a = (match i.prompt {
        Some(p) => "<div class=\"info-response\"><span class=\"prompt\">["@ + escape_html(p) + "]</span> "@,
        None => "<div class=\"info-response\">"@,
    }) + "<span class=\"response\">"@;
    let n = escape_html(i.response);
    let b = "</span>"@ + " "@;
    let t = topic_trans_span(i.response_trans);
    let rest = "</div>\n"@;
    reveal_strlit(" ");
    assert(info_html(i) =~= a + n + b + t + rest);
    let p = a.len() as int;
    let q = (a.len() + n.len() + b.len()) as int;
    assert(info_html(i).subrange(p, p + n.len()) =~= n);
    assert(info_html(i).subrange(q, q + t.len()) =~= t);
}

/// For a topic whose translation is not empty, its block shows the escaped
/// topic name and, after it, the escaped translation in a translation span.
pub proof fn law_topic_translation_in_block(d: DialV)
    requires
        d.topic_trans.len() > 0,
    ensures
        exists|p: int, q: int| 0 <= p && p + escape_html(d.topic).len() <= q
            && q + topic_trans_span(d.topic_trans).len() <= dial_html_block(d).len()
            && #[trigger] dial_html_block(d).subrange(p, p + escape_html(d.topic).len()) == escape_html(d.topic)
            && #[trigger] dial_html_block(d).subrange(q, q + topic_trans_span(d.topic_trans).len()) == topic_trans_span(d.topic_trans),
{
    let a = "<div class=\"dial-topic\">"@;
    let n = escape_html(d.topic);
    let b = " <small>["@ + crate::header_processor::hex8_upper(d.dial_form_id) + "]</small></div>\n"@;
    let c = "<div class=\"info-response\">"@;
    let t = topic_trans_span(d.topic_trans);
    let rest = "</div>\n"@ + (if d.responses.len() == 0 {
            "<div class=\"no-response\">（无回复）</div>\n"@
        } else {
            infos_html(d.responses, d.responses.len() as int)
        });
    reveal_strlit("<div class=\"info-response\"><span class=\"trans\">→ ");
    reveal_strlit("<div class=\"info-response\">");
    reveal_strlit("<span class=\"trans\">→ ");
    reveal_strlit("</span></div>\n");
    reveal_strlit("</span>");
    reveal_strlit("</div>\n");
    let blk = dial_html_block(d);
    assert(blk =~= a + n + b + c + t + rest);
    let p = a.len() as int;
    let q = (a.len() + n.len() + b.len() + c.len()) as int;
    assert(blk.subrange(p, p + n.len()) =~= n);
    assert(blk.subrange(q, q + t.len()) =~= t);
}

/// The blocks of the first `n` topics.
pub open spec fn dials_html(ts: Seq<DialV>, n: int) -> Seq<char>
    decreases n,
{
    if n <= 0 || n > ts.len() { Seq::empty() } else { dials_html(ts, n - 1) + dial_html_block(ts[n - 1]) }
}

proof fn lemma_dials_prefix(ts: Seq<DialV>, j: int, n: int)
    requires
        0 <= j <= n <= ts.len(),
    ensures
        dials_html(ts, j).len() <= dials_html(ts, n).len(),
        dials_html(ts, n).subrange(0, dials_html(ts, j).len() as int) == dials_html(ts, j),
    decreases n - j,
{
    let x = dials_html(ts, j);
    if j < n {
        lemma_dials_prefix(ts, j, n - 1);
        let a = dials_html(ts, n - 1);
        assert(dials_html(ts, n) == a + dial_html_block(ts[n - 1]));
        assert((a + dial_html_block(ts[n - 1])).subrange(0, x.len() as int) =~= a.subrange(0, x.len() as int));
    } else {
        assert(x.subrange(0, x.len() as int) =~= x);
    }
}

/// On the page of a dialogue tree, every topic whose translation is not
/// empty has its escaped name shown and, after it, its escaped translation
/// in a translation span.
pub proof fn law_topic_translation_on_page(ts: Seq<DialV>, title: Seq<char>, j: int)
    requires
        0 <= j < ts.len(),
        ts[j].topic_trans.len() > 0,
    ensures
        exists|p: int, q: int| 0 <= p && p + escape_html(ts[j].topic).len() <= q
            && q + topic_trans_span(ts[j].topic_trans).len() <= tree_html(ts, title).len()
            && #[trigger] tree_html(ts, title).subrange(p, p + escape_html(ts[j].topic).len()) == escape_html(ts[j].topic)
            && #[trigger] tree_html(ts, title).subrange(q, q + topic_trans_span(ts[j].topic_trans).len())
                == topic_trans_span(ts[j].topic_trans),
{
    let d = ts[j];
    let n = ts.len() as int;
    law_topic_translation_in_block(d);
    let blk = dial_html_block(d);
    let nm = escape_html(d.topic);
    let t = topic_trans_span(d.topic_trans);
    let (p, q) = choose|p: int, q: int| 0 <= p && p + nm.len() <= q && q + t.len() <= blk.len()
        && #[trigger] blk.subrange(p, p + nm.len()) == nm && #[trigger] blk.subrange(q, q + t.len()) == t;
    lemma_dials_prefix(ts, j + 1, n);
    let all = dials_html(ts, n);
    let before = dials_html(ts, j);
    assert(dials_html(ts, j + 1) == before + blk);
    let head = page_start() + escape_html(title) + page_style() + escape_html(title) + "</h1>\n<p class=\"stats\">"@
        + crate::text::decimal(ts.len()) + " 个对话主题，"@ + crate::text::decimal(response_total(ts, n))
        + " 条回复</p>\n"@;
    let tail = "</body>\n</html>"@;
    let page = tree_html(ts, title);
    assert(page =~= head + all + tail);
    let off = head.len() + before.len();
    assert(all.subrange(0, (before + blk).len() as int) == before + blk);
    assert(page.subrange(off + p, off + p + nm.len()) =~= blk.subrange(p, p + nm.len())) by {
        assert(page.subrange(off + p, off + p + nm.len()) =~= all.subrange(before.len() + p, before.len() + p + nm.len()));
        assert(all.subrange(before.len() + p, before.len() + p + nm.len()) =~= (before + blk).subrange(before.len() + p, before.len() + p + nm.len()));
    }
    assert(page.subrange(off + q, off + q + t.len()) =~= blk.subrange(q, q + t.len())) by {
        assert(page.subrange(off + q, off + q + t.len()) =~= all.subrange(before.len() + q, before.len() + q + t.len()));
        assert(all.subrange(before.len() + q, before.len() + q + t.len()) =~= (before + blk).subrange(before.len() + q, before.len() + q + t.len()));
    }
}

/// The number of responses of the first `n` topics.
pub open spec fn response_total(ts: Seq<DialV>, n: int) -> nat
    decreases n,
{
    if n <= 0 || n > ts.len() { 0 } else { response_total(ts, n - 1) + ts[n - 1].responses.len() }
}

/// The page head up to the title.
pub open spec fn page_start() -> Seq<char> {
    "<!DOCTYPE html>\n<html lang=\"zh-CN\">\n<head>\n<meta charset=\"UTF-8\">\n<title>"@
}

/// The style sheet and the start of the body.
pub open spec fn page_style() -> Seq<char> {
    "</title>\n<style>
body { font-family: 'Segoe UI', system-ui, sans-serif; max-width: 900px; margin: 0 auto; padding: 20px; background: #1e1e2e; color: #cdd6f4; }
h1 { color: #cba6f7; border-bottom: 2px solid #45475a; padding-bottom: 8px; }
.dial-topic { margin: 16px 0 4px 0; color: #f5c2e7; font-size: 1.1em; }
.dial-topic small { color: #6c7086; font-size: 0.8em; margin-left: 8px; }
.info-response { margin: 2px 0 2px 24px; padding: 4px 8px; border-left: 3px solid #45475a; }
.info-response .response { color: #a6e3a1; }
.info-response .trans { color: #89b4fa; margin-left: 8px; }
.info-response .prompt { color: #6c7086; font-size: 0.85em; }
.no-response { color: #6c7086; font-style: italic; margin-left: 24px; }
.stats { color: #6c7086; font-size: 0.9em; margin-bottom: 16px; }
</style>
</head>
<body>
<h1>"@
}

/// The HTML page of a dialogue tree: head and style, title, counts of
/// topics and responses, and one block per topic.
pub open spec fn tree_html(ts: Seq<DialV>, title: Seq<char>) -> Seq<char> {
    page_start() + escape_html(title) + page_style() + escape_html(title) + "</h1>\n<p class=\"stats\">"@
        + crate::text::decimal(ts.len()) + " 个对话主题，"@ + crate::text::decimal(response_total(ts, ts.len() as int))
        + " 条回复</p>\n"@ + dials_html(ts, ts.len() as int) + "</body>\n</html>"@
}

/// The views of a list of topics.
pub open spec fn dials_view(v: Seq<DialEntry>) -> Seq<DialV> {
    v.map_values(|d: DialEntry| d@)
}

/// Appends the lines of one response (see [`info_html`]).
fn push_info_html(out: &mut Vec<char>, i: &InfoEntry)
    ensures
        final(out)@ == old(out)@ + info_html(i@),
{
    match &i.prompt {
        Some(p) => {
            crate::header_processor::push_lit(out, "<div class=\"info-response\"><span class=\"prompt\">[");
            push_escaped(out, p);
            crate::header_processor::push_lit(out, "]</span> ");
        },
        None => {
            crate::header_processor::push_lit(out, "<div class=\"info-response\">");
        },
    }
    crate::header_processor::push_lit(out, "<span class=\"response\">");
    push_escaped(out, &i.response);
    crate::header_processor::push_lit(out, "</span>");
    if i.response_trans.as_str().unicode_len() > 0 {
        crate::header_processor::push_lit(out, " <span class=\"trans\">→ ");
        push_escaped(out, &i.response_trans);
        crate::header_processor::push_lit(out, "</span>");
    }
    crate::header_processor::push_lit(out, "</div>\n");
    assert(out@ =~= old(out)@ + info_html(i@));
}

/// Appends the lines of one topic (see [`dial_html_block`]).
fn push_dial_html(out: &mut Vec<char>, d: &DialEntry)
    ensures
        final(out)@ == old(out)@ + dial_html_block(d@),
{
    let ghost o = out@;
    crate::header_processor::push_lit(out, "<div class=\"dial-topic\">");
    push_escaped(out, &d.topic);
    crate::header_processor::push_lit(out, " <small>[");
    crate::header_processor::push_hex8_upper(out, d.dial_form_id);
    crate::header_processor::push_lit(out, "]</small></div>\n");
    if d.topic_trans.as_str().unicode_len() > 0 {
        crate::header_processor::push_lit(out, "<div class=\"info-response\"><span class=\"trans\">→ ");
        push_escaped(out, &d.topic_trans);
        crate::header_processor::push_lit(out, "</span></div>\n");
    }
    let ghost mid = out@;
    if d.responses.len() == 0 {
        crate::header_processor::push_lit(out, "<div class=\"no-response\">（无回复）</div>\n");
    } else {
        let mut k: usize = 0;
        while k < d.responses.len()
            invariant
                k <= d.responses@.len(),
                out@ == mid + infos_html(infos_view(d.responses@), k as int),
            decreases d.responses@.len() - k,
        {
            push_info_html(out, &d.responses[k]);
            assert(infos_view(d.responses@)[k as int] == d.responses@[k as int]@);
            k = k + 1;
        }
    }
    assert(out@ =~= o + dial_html_block(d@));
}

/// The HTML page of a dialogue tree (see [`tree_html`]).
pub fn dial_tree_to_html(tree: &[DialEntry], title: &str) -> (r: String)
    ensures
        r@ == tree_html(dials_view(tree@), title@),
{
    let t = title.to_string();
    let ghost ts = dials_view(tree@);
    let mut out: Vec<char> = Vec::new();
    crate::header_processor::push_lit(&mut out, "<!DOCTYPE html>\n<html lang=\"zh-CN\">\n<head>\n<meta charset=\"UTF-8\">\n<title>");
    push_escaped(&mut out, &t);
    crate::header_processor::push_lit(&mut out, "</title>\n<style>
body { font-family: 'Segoe UI', system-ui, sans-serif; max-width: 900px; margin: 0 auto; padding: 20px; background: #1e1e2e; color: #cdd6f4; }
h1 { color: #cba6f7; border-bottom: 2px solid #45475a; padding-bottom: 8px; }
.dial-topic { margin: 16px 0 4px 0; color: #f5c2e7; font-size: 1.1em; }
.dial-topic small { color: #6c7086; font-size: 0.8em; margin-left: 8px; }
.info-response { margin: 2px 0 2px 24px; padding: 4px 8px; border-left: 3px solid #45475a; }
.info-response .response { color: #a6e3a1; }
.info-response .trans { color: #89b4fa; margin-left: 8px; }
.info-response .prompt { color: #6c7086; font-size: 0.85em; }
.no-response { color: #6c7086; font-style: italic; margin-left: 24px; }
.stats { color: #6c7086; font-size: 0.9em; margin-bottom: 16px; }
</style>
</head>
<body>
<h1>");
    push_escaped(&mut out, &t);
    crate::header_processor::push_lit(&mut out, "</h1>\n<p class=\"stats\">");
    let nt = crate::text::u64_decimal(tree.len() as u64);
    extend_chars(&mut out, &nt);
    crate::header_processor::push_lit(&mut out, " 个对话主题，");
    let mut total: u128 = 0;
    let mut k: usize = 0;
    while k < tree.len()
        invariant
            k <= tree@.len(),
            ts == dials_view(tree@),
            total as nat == response_total(ts, k as int),
            total <= k * 0x1_0000_0000_0000_0000,
        decreases tree@.len() - k,
    {
        assert(ts[k as int] == tree@[k as int]@);
        assert(infos_view(tree@[k as int].responses@).len() == tree@[k as int].responses@.len());
        let len = tree[k].responses.len();
        assert(len <= 0xFFFF_FFFF_FFFF_FFFF);
        total = total + len as u128;
        k = k + 1;
    }
    let nr = crate::text::u128_decimal(total);
    extend_chars(&mut out, &nr);
    crate::header_processor::push_lit(&mut out, " 条回复</p>\n");
    let ghost before = out@;
    let mut j: usize = 0;
    while j < tree.len()
        invariant
            j <= tree@.len(),
            ts == dials_view(tree@),
            out@ == before + dials_html(ts, j as int),
        decreases tree@.len() - j,
    {
        push_dial_html(&mut out, &tree[j]);
        assert(ts[j as int] == tree@[j as int]@);
        j = j + 1;
    }
    crate::header_processor::push_lit(&mut out, "</body>\n</html>");
    string_from_chars(out.as_slice())
}

} // verus!
