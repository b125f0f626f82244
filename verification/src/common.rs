//! Channel descriptors: the user-facing selector for a blockchain channel,
//! round-trippable through its string form.

use vstd::prelude::*;

use crate::date::{lemma_date_str_form, lemma_date_str_injective, spec_date_str, spec_date_wf, Date};
use crate::digits::{char_to_digit, is_digit};
use crate::text::{chars_to_string, find_char, push_str_chars, str_to_chars, sub_chars};

verus! {

/// Errors of the configuration component.
#[derive(Clone, Copy, Debug, PartialEq, Eq, Structural)]
pub enum CommonError {
    InvalidChannelDescriptor,
    InvalidSettingsDocument,
    NoEntryForChannel,
    SyncNotAvailable,
}

/// A channel selector: the stable partition, the nightly partition, or a
/// specific channel instance, possibly partial. An unset field is a wildcard.
#[derive(Debug, PartialEq)]
pub enum Channel {
    Stable,
    Nightly,
    Specific { network: Option<String>, date: Option<Date> },
}

/// The mathematical shape of a channel selector: network names as character
/// sequences.
pub enum ChannelView {
    Stable,
    Nightly,
    Specific { network: Option<Seq<char>>, date: Option<Date> },
}

impl View for Channel {
    type V = ChannelView;

    open spec fn view(&self) -> ChannelView {
        match self {
            Channel::Stable => ChannelView::Stable,
            Channel::Nightly => ChannelView::Nightly,
            Channel::Specific { network, date } => ChannelView::Specific {
                network: match network {
                    Some(n) => Some(n@),
                    None => None,
                },
                date: *date,
            },
        }
    }
}

/// The token naming the stable partition.
pub open spec fn stable_chars() -> Seq<char> {
    seq!['s', 't', 'a', 'b', 'l', 'e']
}

/// The token naming the nightly partition.
pub open spec fn nightly_chars() -> Seq<char> {
    seq!['n', 'i', 'g', 'h', 't', 'l', 'y']
}

/// A lower-case ASCII letter.
pub open spec fn is_lower_alpha(c: char) -> bool {
    'a' <= c && c <= 'z'
}

/// A character allowed inside a network name.
pub open spec fn is_network_char(c: char) -> bool {
    is_lower_alpha(c) || is_digit(c) || c == '_'
}

/// A well-formed network name: nonempty, starts with a letter, and holds only
/// letters, digits and underscores — in particular, no separator dash.
pub open spec fn spec_network_wf(s: Seq<char>) -> bool {
    &&& s.len() >= 1
    &&& is_lower_alpha(s[0])
    &&& forall|i: int| 0 <= i < s.len() ==> is_network_char(#[trigger] s[i])
}

/// A well-formed channel selector: a specific selector sets at least one
/// field, its network name is well formed, and a network set without a date
/// must not spell one of the two partition tokens.
pub open spec fn spec_channel_wf(cv: ChannelView) -> bool {
    match cv {
        ChannelView::Stable => true,
        ChannelView::Nightly => true,
        ChannelView::Specific { network, date } => {
            &&& network is Some || date is Some
            &&& (network is Some ==> spec_network_wf(network->0))
            &&& (date is Some ==> spec_date_wf(date->0))
            &&& ((network is Some && date is None) ==> network->0 != stable_chars() && network->0
                != nightly_chars())
        },
    }
}

/// The canonical string form of a channel selector.
pub open spec fn spec_channel_str(cv: ChannelView) -> Seq<char> {
    match cv {
        ChannelView::Stable => stable_chars(),
        ChannelView::Nightly => nightly_chars(),
        ChannelView::Specific { network: Some(n), date: Some(d) } => n + seq!['-'] + spec_date_str(
            d,
        ),
        ChannelView::Specific { network: Some(n), date: None } => n,
        ChannelView::Specific { network: None, date: Some(d) } => spec_date_str(d),
        ChannelView::Specific { network: None, date: None } => Seq::empty(),
    }
}

/// Whether a selector names the nightly partition.
pub open spec fn spec_is_nightly(cv: ChannelView) -> bool {
    match cv {
        ChannelView::Stable => false,
        ChannelView::Nightly => true,
        ChannelView::Specific { network, date } => network is Some && network->0
            == nightly_chars(),
    }
}

/// The canonical string form determines the selector: rendering is injective
/// on well-formed selectors.
pub proof fn lemma_channel_str_injective(c1: ChannelView, c2: ChannelView)
    requires
        spec_channel_wf(c1),
        spec_channel_wf(c2),
        spec_channel_str(c1) == spec_channel_str(c2),
    ensures
        c1 == c2,
{
    let s = spec_channel_str(c1);
    lemma_channel_str_cases(c1);
    lemma_channel_str_cases(c2);
    match (c1, c2) {
        (
            ChannelView::Specific { network: Some(n1), date: Some(d1) },
            ChannelView::Specific { network: Some(n2), date: Some(d2) },
        ) => {
            lemma_date_str_form(d1);
            lemma_date_str_form(d2);
            assert(n1.len() == n2.len());
            assert(n1 =~= n2) by {
                assert forall|i: int| 0 <= i < n1.len() implies n1[i] == n2[i] by {
                    assert(s[i] == n1[i]);
                    assert(s[i] == n2[i]);
                }
            }
            assert(spec_date_str(d1) =~= spec_date_str(d2)) by {
                assert forall|i: int| 0 <= i < 10 implies spec_date_str(d1)[i] == spec_date_str(
                    d2,
                )[i] by {
                    assert(s[n1.len() + 1 + i] == spec_date_str(d1)[i]);
                    assert(s[n2.len() + 1 + i] == spec_date_str(d2)[i]);
                }
            }
            lemma_date_str_injective(d1, d2);
        },
        (
            ChannelView::Specific { network: None, date: Some(d1) },
            ChannelView::Specific { network: None, date: Some(d2) },
        ) => {
            lemma_date_str_injective(d1, d2);
        },
        _ => {},
    }
}

/// Shape facts about a rendered selector, enough to tell the five shapes
/// apart: its length, where a dash can stand, and which characters fill it.
pub proof fn lemma_channel_str_cases(cv: ChannelView)
    requires
        spec_channel_wf(cv),
    ensures
        cv is Stable ==> spec_channel_str(cv) == stable_chars(),
        cv is Nightly ==> spec_channel_str(cv) == nightly_chars(),
        stable_chars().len() == 6 && nightly_chars().len() == 7,
        forall|j: int| 0 <= j < 6 ==> stable_chars()[j] != '-',
        forall|j: int| 0 <= j < 7 ==> nightly_chars()[j] != '-',
        (cv is Specific && cv->network is Some && cv->date is None) ==> spec_channel_str(cv)
            == cv->network->0 && (forall|j: int|
            0 <= j < spec_channel_str(cv).len() ==> #[trigger] spec_channel_str(cv)[j] != '-'),
        (cv is Specific && cv->network is None && cv->date is Some) ==> spec_channel_str(cv)
            == spec_date_str(cv->date->0) && spec_channel_str(cv).len() == 10 && spec_channel_str(
            cv,
        )[4] == '-',
        (cv is Specific && cv->network is Some && cv->date is Some) ==> ({
            let n = cv->network->0;
            let s = spec_channel_str(cv);
            &&& s.len() == n.len() + 11
            &&& n.len() >= 1
            &&& s.subrange(0, n.len() as int) == n
            &&& s.subrange(n.len() as int + 1, s.len() as int) == spec_date_str(cv->date->0)
            &&& s[n.len() as int] == '-'
            &&& forall|j: int| 0 <= j < n.len() ==> #[trigger] s[j] != '-'
        }),
{
    match cv {
        ChannelView::Stable => {},
        ChannelView::Nightly => {},
        ChannelView::Specific { network, date } => {
            if network is Some && date is None {
                let n = network->0;
                assert forall|j: int| 0 <= j < n.len() implies #[trigger] n[j] != '-' by {
                    assert(is_network_char(n[j]));
                }
            }
            if network is None && date is Some {
                lemma_date_str_form(date->0);
            }
            if network is Some && date is Some {
                let n = network->0;
                let d = date->0;
                lemma_date_str_form(d);
                let s = spec_channel_str(cv);
                assert(s =~= n + seq!['-'] + spec_date_str(d));
                assert(s.subrange(0, n.len() as int) =~= n);
                assert(s.subrange(n.len() as int + 1, s.len() as int) =~= spec_date_str(d));
                assert forall|j: int| 0 <= j < n.len() implies #[trigger] s[j] != '-' by {
                    assert(s[j] == n[j]);
                    assert(is_network_char(n[j]));
                }
            }
        },
    }
}

/// Whether a character vector spells the stable token.
fn token_is_stable(v: &Vec<char>) -> (b: bool)
    ensures
        b == (v@ == stable_chars()),
{
    let b = v.len() == 6 && v[0] == 's' && v[1] == 't' && v[2] == 'a' && v[3] == 'b' && v[4] == 'l'
        && v[5] == 'e';
    proof {
        if b {
            assert(v@ =~= stable_chars());
        }
    }
    b
}

/// Whether a character vector spells the nightly token.
fn token_is_nightly(v: &Vec<char>) -> (b: bool)
    ensures
        b == (v@ == nightly_chars()),
{
    let b = v.len() == 7 && v[0] == 'n' && v[1] == 'i' && v[2] == 'g' && v[3] == 'h' && v[4] == 't'
        && v[5] == 'l' && v[6] == 'y';
    proof {
        if b {
            assert(v@ =~= nightly_chars());
        }
    }
    b
}

/// Whether `v[from..to]` is a well-formed network name.
fn check_network(v: &Vec<char>, from: usize, to: usize) -> (b: bool)
    requires
        from <= to <= v@.len(),
    ensures
        b == spec_network_wf(v@.subrange(from as int, to as int)),
{
    let ghost sub = v@.subrange(from as int, to as int);
    if from == to {
        return false;
    }
    let c0 = v[from];
    if !('a' <= c0 && c0 <= 'z') {
        assert(sub[0] == c0);
        return false;
    }
    let mut i: usize = from;
    while i < to
        invariant
            from <= i <= to <= v@.len(),
            sub == v@.subrange(from as int, to as int),
            forall|j: int| 0 <= j < i - from ==> is_network_char(#[trigger] sub[j]),
        decreases to - i,
    {
        let c = v[i];
        assert(sub[i - from] == c);
        let ok = ('a' <= c && c <= 'z') || char_to_digit(c).is_some() || c == '_';
        if !ok {
            return false;
        }
        i = i + 1;
    }
    assert(sub[0] == c0);
    true
}

impl Channel {
    /// Whether this selector names the nightly partition.
    pub fn is_nightly(&self) -> (b: bool)
        ensures
            b == spec_is_nightly(self@),
    {
        match self {
            Channel::Nightly => true,
            Channel::Stable => false,
            Channel::Specific { network, date } => match network {
                Some(n) => {
                    let chars = str_to_chars(n.as_str());
                    token_is_nightly(&chars)
                },
                None => false,
            },
        }
    }

    /// The selector as its canonical string.
    pub fn to_string(&self) -> (s: String)
        ensures
            s@ == spec_channel_str(self@),
    {
        let mut out: Vec<char> = Vec::new();
        match self {
            Channel::Stable => {
                push_str_chars(&mut out, "stable");
                proof {
                    reveal_strlit("stable");
                    assert(out@ =~= stable_chars());
                }
            },
            Channel::Nightly => {
                push_str_chars(&mut out, "nightly");
                proof {
                    reveal_strlit("nightly");
                    assert(out@ =~= nightly_chars());
                }
            },
            Channel::Specific { network, date } => {
                match network {
                    Some(n) => {
                        push_str_chars(&mut out, n.as_str());
                        if date.is_some() {
                            out.push('-');
                        }
                    },
                    None => {},
                }
                match date {
                    Some(d) => {
                        d.push_chars(&mut out);
                    },
                    None => {},
                }
                assert(out@ =~= spec_channel_str(self@));
            },
        }
        chars_to_string(&out)
    }

    /// Read a selector out of a character vector. Succeeds exactly on the
    /// canonical string form of some well-formed selector, and returns it.
    #[verifier::rlimit(60)]
    pub fn parse_chars(v: &Vec<char>) -> (r: Result<Channel, CommonError>)
        ensures
            r is Ok ==> spec_channel_wf(r->Ok_0@) && v@ == spec_channel_str(r->Ok_0@),
            forall|cv: ChannelView|
                spec_channel_wf(cv) && v@ == spec_channel_str(cv) ==> r is Ok && r->Ok_0@ == cv,
    {
        if token_is_stable(v) {
            let c = Channel::Stable;
            proof {
                assert forall|cv: ChannelView|
                    spec_channel_wf(cv) && v@ == spec_channel_str(cv) implies c@ == cv by {
                    lemma_channel_str_injective(c@, cv);
                }
            }
            return Ok(c);
        }
        if token_is_nightly(v) {
            let c = Channel::Nightly;
            proof {
                assert forall|cv: ChannelView|
                    spec_channel_wf(cv) && v@ == spec_channel_str(cv) implies c@ == cv by {
                    lemma_channel_str_injective(c@, cv);
                }
            }
            return Ok(c);
        }
        let n = v.len();
        let dash_opt = find_char(v, 0, '-');
        match dash_opt {
            None => {
                if check_network(v, 0, n) {
                    assert(v@.subrange(0, n as int) =~= v@);
                    let name = chars_to_string(v);
                    let c = Channel::Specific { network: Some(name), date: None };
                    proof {
                        assert(spec_channel_wf(c@));
                        assert(v@ == spec_channel_str(c@));
                        assert forall|cv: ChannelView|
                            spec_channel_wf(cv) && v@ == spec_channel_str(cv) implies c@ == cv by {
                            lemma_channel_str_injective(c@, cv);
                        }
                    }
                    Ok(c)
                } else {
                    proof {
                        assert(v@.subrange(0, n as int) =~= v@);
                        assert forall|cv: ChannelView|
                            !(spec_channel_wf(cv) && v@ == spec_channel_str(cv)) by {
                            if spec_channel_wf(cv) && v@ == spec_channel_str(cv) {
                                lemma_channel_str_cases(cv);
                            }
                        }
                    }
                    Err(CommonError::InvalidChannelDescriptor)
                }
            },
            Some(p) => {
                if n >= 11 && p == n - 11 {
                    if check_network(v, 0, p) {
                        match Date::parse_at(v, p + 1) {
                            Some(d) => {
                                let namev = sub_chars(v, 0, p);
                                let name = chars_to_string(&namev);
                                let c = Channel::Specific {
                                    network: Some(name),
                                    date: Some(d),
                                };
                                proof {
                                    assert(spec_channel_wf(c@));
                                    assert(v@ =~= spec_channel_str(c@));
                                    assert forall|cv: ChannelView|
                                        spec_channel_wf(cv) && v@ == spec_channel_str(
                                            cv,
                                        ) implies c@ == cv by {
                                        lemma_channel_str_injective(c@, cv);
                                    }
                                }
                                Ok(c)
                            },
                            None => {
                                proof {
                                    assert forall|cv: ChannelView|
                                        !(spec_channel_wf(cv) && v@ == spec_channel_str(cv)) by {
                                        if spec_channel_wf(cv) && v@ == spec_channel_str(cv) {
                                            lemma_channel_str_cases(cv);
                                            match cv {
                                                ChannelView::Stable => {},
                                                ChannelView::Nightly => {},
                                                ChannelView::Specific { network, date } => {
                                                    if network is Some && date is Some {
                                                        lemma_net_date_dash_pos(
                                                            v@,
                                                            p as int,
                                                            network->0,
                                                            date->0,
                                                        );
                                                        assert(v@.subrange(p + 1, n as int)
                                                            == spec_date_str(date->0));
                                                    } else if network is Some {
                                                        assert(v@[p as int] != '-');
                                                    }
                                                },
                                            }
                                        }
                                    }
                                }
                                Err(CommonError::InvalidChannelDescriptor)
                            },
                        }
                    } else {
                        proof {
                            assert forall|cv: ChannelView|
                                !(spec_channel_wf(cv) && v@ == spec_channel_str(cv)) by {
                                if spec_channel_wf(cv) && v@ == spec_channel_str(cv) {
                                    lemma_channel_str_cases(cv);
                                    match cv {
                                        ChannelView::Stable => {},
                                        ChannelView::Nightly => {},
                                        ChannelView::Specific { network, date } => {
                                            if network is Some && date is Some {
                                                lemma_net_date_dash_pos(
                                                    v@,
                                                    p as int,
                                                    network->0,
                                                    date->0,
                                                );
                                                assert(v@.subrange(0, p as int) == network->0);
                                            } else if network is Some {
                                                assert(v@[p as int] != '-');
                                            }
                                        },
                                    }
                                }
                            }
                        }
                        Err(CommonError::InvalidChannelDescriptor)
                    }
                } else if n == 10 {
                    match Date::parse_at(v, 0) {
                        Some(d) => {
                            let c = Channel::Specific { network: None, date: Some(d) };
                            proof {
                                assert(v@.subrange(0, 10) =~= v@);
                                assert(spec_channel_wf(c@));
                                assert(v@ == spec_channel_str(c@));
                                assert forall|cv: ChannelView|
                                    spec_channel_wf(cv) && v@ == spec_channel_str(cv) implies c@
                                    == cv by {
                                    lemma_channel_str_injective(c@, cv);
                                }
                            }
                            Ok(c)
                        },
                        None => {
                            proof {
                                assert(v@.subrange(0, 10) =~= v@);
                                assert forall|cv: ChannelView|
                                    !(spec_channel_wf(cv) && v@ == spec_channel_str(cv)) by {
                                    if spec_channel_wf(cv) && v@ == spec_channel_str(cv) {
                                        lemma_channel_str_cases(cv);
                                        match cv {
                                            ChannelView::Stable => {},
                                            ChannelView::Nightly => {},
                                            ChannelView::Specific { network, date } => {
                                                if network is Some && date is None {
                                                    assert(v@[p as int] != '-');
                                                }
                                            },
                                        }
                                    }
                                }
                            }
                            Err(CommonError::InvalidChannelDescriptor)
                        },
                    }
                } else {
                    proof {
                        assert forall|cv: ChannelView|
                            !(spec_channel_wf(cv) && v@ == spec_channel_str(cv)) by {
                            if spec_channel_wf(cv) && v@ == spec_channel_str(cv) {
                                lemma_channel_str_cases(cv);
                                match cv {
                                    ChannelView::Stable => {},
                                    ChannelView::Nightly => {},
                                    ChannelView::Specific { network, date } => {
                                        if network is Some && date is Some {
                                            lemma_net_date_dash_pos(
                                                v@,
                                                p as int,
                                                network->0,
                                                date->0,
                                            );
                                        } else if network is Some {
                                            assert(v@[p as int] != '-');
                                        }
                                    },
                                }
                            }
                        }
                    }
                    Err(CommonError::InvalidChannelDescriptor)
                }
            },
        }
    }

    /// A copy with the same fields.
    pub fn duplicate(&self) -> (r: Channel)
        ensures
            r == *self,
    {
        match self {
            Channel::Stable => Channel::Stable,
            Channel::Nightly => Channel::Nightly,
            Channel::Specific { network, date } => Channel::Specific {
                network: match network {
                    Some(n) => Some(n.clone()),
                    None => None,
                },
                date: *date,
            },
        }
    }

    /// Read a selector out of its canonical string form.
    pub fn from_str(s: &str) -> (r: Result<Channel, CommonError>)
        ensures
            r is Ok ==> spec_channel_wf(r->Ok_0@) && s@ == spec_channel_str(r->Ok_0@),
            forall|cv: ChannelView|
                spec_channel_wf(cv) && s@ == spec_channel_str(cv) ==> r is Ok && r->Ok_0@ == cv,
    {
        let chars = str_to_chars(s);
        Self::parse_chars(&chars)
    }
}

/// On a rendered dated selector, the first dash closes the network name:
/// the name itself holds no dash.
proof fn lemma_net_date_dash_pos(v: Seq<char>, p: int, netw: Seq<char>, d: Date)
    requires
        spec_network_wf(netw),
        spec_date_wf(d),
        v == netw + seq!['-'] + spec_date_str(d),
        0 <= p < v.len(),
        v[p] == '-',
        forall|j: int| 0 <= j < p ==> v[j] != '-',
    ensures
        p == netw.len(),
{
    let cv = ChannelView::Specific { network: Some(netw), date: Some(d) };
    assert(spec_channel_str(cv) == v);
    lemma_channel_str_cases(cv);
    if p < netw.len() {
        assert(v[p] != '-');
    }
    if p > netw.len() {
        assert(v[netw.len() as int] == '-');
    }
}

/// The persisted settings: a single field, the default channel selector.
#[derive(Debug, PartialEq)]
pub struct JorupSettings {
    pub default: Channel,
}

impl Default for JorupSettings {
    /// Before any setting is saved, the default channel is the stable one.
    fn default() -> (r: Self)
        ensures
            r.default@ == ChannelView::Stable,
    {
        JorupSettings { default: Channel::Stable }
    }
}

/// The settings document: one line binding the one recognized field to the
/// selector's string form. Anything else in the document is rejected.
pub open spec fn spec_settings_doc(cv: ChannelView) -> Seq<char> {
    "default = \""@ + spec_channel_str(cv) + "\"\n"@
}

/// Render the settings document; persisting it is a full-document replace.
pub fn render_settings(st: &JorupSettings) -> (r: String)
    ensures
        r@ == spec_settings_doc(st.default@),
{
    let mut out = String::from_str("default = \"");
    let chan = st.default.to_string();
    out.append(chan.as_str());
    out.append("\"\n");
    proof {
        assert(out@ =~= spec_settings_doc(st.default@));
    }
    out
}

/// Read a settings document. Succeeds exactly on the rendering of some
/// well-formed selector; unrecognized content is rejected, never ignored.
pub fn parse_settings(s: &str) -> (r: Result<JorupSettings, CommonError>)
    ensures
        r is Ok ==> spec_channel_wf(r->Ok_0.default@) && s@ == spec_settings_doc(
            r->Ok_0.default@,
        ),
        forall|cv: ChannelView|
            spec_channel_wf(cv) && s@ == spec_settings_doc(cv) ==> r is Ok && r->Ok_0.default@
                == cv,
{
    let v = str_to_chars(s);
    let n = v.len();
    proof {
        reveal_strlit("default = \"");
        reveal_strlit("\"\n");
        assert forall|cv: ChannelView| spec_channel_wf(cv) implies spec_settings_doc(cv).len() == 13
            + spec_channel_str(cv).len() && spec_channel_str(cv).len() >= 1 by {
            lemma_channel_str_cases(cv);
        }
    }
    if n < 14 {
        return Err(CommonError::InvalidSettingsDocument);
    }
    if !(v[0] == 'd' && v[1] == 'e' && v[2] == 'f' && v[3] == 'a' && v[4] == 'u' && v[5] == 'l'
        && v[6] == 't' && v[7] == ' ' && v[8] == '=' && v[9] == ' ' && v[10] == '"') {
        proof {
            assert forall|cv: ChannelView|
                !(spec_channel_wf(cv) && v@ == spec_settings_doc(cv)) by {
                if spec_channel_wf(cv) && v@ == spec_settings_doc(cv) {
                    assert forall|j: int| 0 <= j < 11 implies v@[j] == "default = \""@[j] by {
                        assert(spec_settings_doc(cv)[j] == "default = \""@[j]);
                    }
                }
            }
        }
        return Err(CommonError::InvalidSettingsDocument);
    }
    if !(v[n - 2] == '"' && v[n - 1] == '\n') {
        proof {
            assert forall|cv: ChannelView|
                !(spec_channel_wf(cv) && v@ == spec_settings_doc(cv)) by {
                if spec_channel_wf(cv) && v@ == spec_settings_doc(cv) {
                    let lt = spec_channel_str(cv).len() as int;
                    assert(spec_settings_doc(cv)[11 + lt] == "\"\n"@[0]);
                    assert(spec_settings_doc(cv)[11 + lt + 1] == "\"\n"@[1]);
                }
            }
        }
        return Err(CommonError::InvalidSettingsDocument);
    }
    let tok = sub_chars(&v, 11, n - 2);
    proof {
        assert forall|cv: ChannelView|
            spec_channel_wf(cv) && v@ == spec_settings_doc(cv) implies tok@ == spec_channel_str(
            cv,
        ) by {
            let lt = spec_channel_str(cv).len() as int;
            assert(n == 13 + lt);
            assert forall|j: int| 0 <= j < lt implies tok@[j] == spec_channel_str(cv)[j] by {
                assert(tok@[j] == v@[11 + j]);
                assert(spec_settings_doc(cv)[11 + j] == spec_channel_str(cv)[j]);
            }
            assert(tok@ =~= spec_channel_str(cv));
        }
    }
    match Channel::parse_chars(&tok) {
        Ok(c) => {
            let st = JorupSettings { default: c };
            proof {
                assert(v@ =~= spec_settings_doc(st.default@));
            }
            Ok(st)
        },
        Err(_) => Err(CommonError::InvalidSettingsDocument),
    }
}

/// The process-wide configuration, built once at startup and threaded by
/// reference: no hidden global state.
pub struct JorupConfig {
    pub home_dir: String,
    pub settings: JorupSettings,
    pub jor_file: Option<String>,
    pub offline: bool,
}

impl JorupConfig {
    /// Assemble the configuration from plain startup inputs. The settings
    /// document, where one exists on disk, is handed in as text and must
    /// parse; with none, the shipped default applies.
    pub fn new(
        home_dir: String,
        jor_file: Option<String>,
        offline: bool,
        settings_text: Option<&str>,
    ) -> (r: Result<JorupConfig, CommonError>)
        ensures
            r is Ok ==> ({
                let c = r->Ok_0;
                &&& c.home_dir == home_dir
                &&& c.jor_file == jor_file
                &&& c.offline == offline
                &&& (settings_text is None ==> c.settings.default@ == ChannelView::Stable)
                &&& (settings_text is Some ==> spec_channel_wf(c.settings.default@)
                    && settings_text->0@ == spec_settings_doc(c.settings.default@))
            }),
            settings_text is None ==> r is Ok,
            forall|cv: ChannelView|
                settings_text is Some && spec_channel_wf(cv) && settings_text->0@
                    == spec_settings_doc(cv) ==> r is Ok && r->Ok_0.settings.default@ == cv,
    {
        let settings = match settings_text {
            None => JorupSettings { default: Channel::Stable },
            Some(t) => match parse_settings(t) {
                Ok(st) => st,
                Err(e) => {
                    return Err(e);
                },
            },
        };
        Ok(JorupConfig { home_dir, settings, jor_file, offline })
    }

    /// The current settings.
    pub fn settings(&self) -> (r: &JorupSettings)
        ensures
            *r == self.settings,
    {
        &self.settings
    }

    /// The configured default channel selector.
    pub fn current_channel(&self) -> (r: &Channel)
        ensures
            *r == self.settings.default,
    {
        &self.settings.default
    }

    /// Whether network access is forbidden for this invocation.
    pub fn offline(&self) -> (b: bool)
        ensures
            b == self.offline,
    {
        self.offline
    }

    /// Set the default selector and hand back the full settings document that
    /// must replace the old one on disk in one durable write — never a
    /// partial field update.
    pub fn set_default_channel(&mut self, new_default: Channel) -> (doc: String)
        ensures
            final(self).settings.default == new_default,
            final(self).home_dir == old(self).home_dir,
            final(self).jor_file == old(self).jor_file,
            final(self).offline == old(self).offline,
            doc@ == spec_settings_doc(final(self).settings.default@),
    {
        self.settings.default = new_default;
        render_settings(&self.settings)
    }

    /// The channel index document's path: an explicitly supplied file wins
    /// over the one under the home directory.
    pub fn jorfile(&self) -> (r: String)
        ensures
            self.jor_file is Some ==> r@ == self.jor_file->0@,
            self.jor_file is None ==> r@ == self.home_dir@ + "/jorfile.json"@,
    {
        match &self.jor_file {
            Some(p) => p.clone(),
            None => {
                let mut r = self.home_dir.clone();
                r.append("/jorfile.json");
                r
            },
        }
    }

    /// Where installed-binary launchers live.
    pub fn bin_dir(&self) -> (r: String)
        ensures
            r@ == self.home_dir@ + "/bin"@,
    {
        let mut r = self.home_dir.clone();
        r.append("/bin");
        r
    }

    /// The root of all channel workspaces.
    pub fn channel_dir(&self) -> (r: String)
        ensures
            r@ == self.home_dir@ + "/channel"@,
    {
        let mut r = self.home_dir.clone();
        r.append("/channel");
        r
    }

    /// The root of the release inventory: one directory per installed version.
    pub fn release_dir(&self) -> (r: String)
        ensures
            r@ == self.home_dir@ + "/release"@,
    {
        let mut r = self.home_dir.clone();
        r.append("/release");
        r
    }

    /// The settings document's path.
    pub fn jorup_settings_file(&self) -> (r: String)
        ensures
            r@ == self.home_dir@ + "/settings.toml"@,
    {
        let mut r = self.home_dir.clone();
        r.append("/settings.toml");
        r
    }

    /// The entry the configured default channel selects: the first catalog
    /// record on the default's side of the stable/nightly partition.
    pub fn current_entry(&self, jor: &crate::jor::Jor) -> (r: Option<usize>)
        ensures
            r is Some ==> r->0 < jor.entries@.len() && jor.entries@[
                r->0 as int
            ].channel.spec_is_nightly() == spec_is_nightly(self.settings.default@) && (forall|
                j: int,
            |
                0 <= j < r->0 ==> #[trigger] jor.entries@[j].channel.spec_is_nightly()
                    != spec_is_nightly(self.settings.default@)),
            r is None ==> forall|j: int|
                0 <= j < jor.entries@.len()
                    ==> #[trigger] jor.entries@[j].channel.spec_is_nightly() != spec_is_nightly(
                    self.settings.default@,
                ),
    {
        jor.first_by_nightly(self.settings.default.is_nightly())
    }

    /// Refreshing the index over the network is an explicit not-yet-available
    /// operation; with an explicit index file or offline it is a no-op.
    pub fn sync_jorfile(&self) -> (r: Result<(), CommonError>)
        ensures
            r is Ok <==> (self.jor_file is Some || self.offline),
            r is Err ==> r->Err_0 == CommonError::SyncNotAvailable,
    {
        if self.jor_file.is_some() || self.offline {
            Ok(())
        } else {
            Err(CommonError::SyncNotAvailable)
        }
    }
}

} // verus!
