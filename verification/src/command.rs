//! The commands of the wire protocol and the keywords that name them.
use vstd::prelude::*;
use vstd::string::StringSliceAdditionalSpecFns;

verus! {

broadcast use vstd::string::group_string_axioms;

/// The verbs of the protocol.
#[derive(Clone, Copy, Debug, PartialEq, Eq, Structural)]
pub enum Verb {
    Put,
    Reserve,
    Delete,
    Release,
    Watch,
    Use,
    ListTubes,
    StatsTube,
    PeekReady,
    PeekDelayed,
    PeekBuried,
}

/// How many verbs there are.
pub const VERB_COUNT: usize = 11;

/// All verbs, in the order in which the decoder tries them.
pub open spec fn verbs() -> Seq<Verb> {
    seq![
        Verb::Put,
        Verb::Reserve,
        Verb::Delete,
        Verb::Release,
        Verb::Watch,
        Verb::Use,
        Verb::ListTubes,
        Verb::StatsTube,
        Verb::PeekReady,
        Verb::PeekDelayed,
        Verb::PeekBuried,
    ]
}

impl Verb {
    /// The keyword that names the verb on the wire.
    pub open spec fn keyword(self) -> Seq<u8> {
        match self {
            Verb::Put => "put".spec_bytes(),
            Verb::Reserve => "reserve".spec_bytes(),
            Verb::Delete => "delete".spec_bytes(),
            Verb::Release => "release".spec_bytes(),
            Verb::Watch => "watch".spec_bytes(),
            Verb::Use => "use".spec_bytes(),
            Verb::ListTubes => "list-tubes".spec_bytes(),
            Verb::StatsTube => "stats-tube".spec_bytes(),
            Verb::PeekReady => "peek-ready".spec_bytes(),
            Verb::PeekDelayed => "peek-delayed".spec_bytes(),
            Verb::PeekBuried => "peek-buried".spec_bytes(),
        }
    }

    /// The verb is followed by one argument.
    pub open spec fn takes_argument(self) -> bool {
        match self {
            Verb::Put | Verb::Delete | Verb::Release | Verb::Watch | Verb::Use | Verb::StatsTube => true,
            _ => false,
        }
    }

    /// The verb's argument is a job id.
    pub open spec fn takes_id(self) -> bool {
        self == Verb::Delete || self == Verb::Release
    }

    /// The keyword as a string.
    pub fn keyword_str(self) -> (r: &'static str)
        ensures
            r.spec_bytes() == self.keyword(),
    {
        match self {
            Verb::Put => "put",
            Verb::Reserve => "reserve",
            Verb::Delete => "delete",
            Verb::Release => "release",
            Verb::Watch => "watch",
            Verb::Use => "use",
            Verb::ListTubes => "list-tubes",
            Verb::StatsTube => "stats-tube",
            Verb::PeekReady => "peek-ready",
            Verb::PeekDelayed => "peek-delayed",
            Verb::PeekBuried => "peek-buried",
        }
    }

    /// Whether the verb is followed by one argument.
    pub fn expects_argument(self) -> (r: bool)
        ensures
            r == self.takes_argument(),
    {
        match self {
            Verb::Put | Verb::Delete | Verb::Release | Verb::Watch | Verb::Use | Verb::StatsTube => true,
            _ => false,
        }
    }

    /// Whether the verb's argument is a job id.
    pub fn expects_id(self) -> (r: bool)
        ensures
            r == self.takes_id(),
    {
        match self {
            Verb::Delete | Verb::Release => true,
            _ => false,
        }
    }

    /// The verb at place `i` of [`verbs`].
    pub fn nth(i: usize) -> (r: Verb)
        requires
            i < VERB_COUNT,
        ensures
            r == verbs()[i as int],
    {
        match i {
            0 => Verb::Put,
            1 => Verb::Reserve,
            2 => Verb::Delete,
            3 => Verb::Release,
            4 => Verb::Watch,
            5 => Verb::Use,
            6 => Verb::ListTubes,
            7 => Verb::StatsTube,
            8 => Verb::PeekReady,
            9 => Verb::PeekDelayed,
            _ => Verb::PeekBuried,
        }
    }
}

/// A decoded command with the argument that its verb requires.
#[derive(Debug, PartialEq, Eq)]
pub enum Command {
    /// Submit a job with this payload.
    Put { data: Vec<u8> },
    /// Claim the job that is served first.
    Reserve,
    /// Remove this job.
    Delete { id: u64 },
    /// Give this reserved job back.
    Release { id: u64 },
    Watch { tube: Vec<u8> },
    UseTube { tube: Vec<u8> },
    ListTubes,
    StatsTube { tube: Vec<u8> },
    PeekReady,
    PeekDelayed,
    PeekBuried,
}

/// What the contracts say of a [`Command`].
pub enum CommandView {
    Put { data: Seq<u8> },
    Reserve,
    Delete { id: u64 },
    Release { id: u64 },
    Watch { tube: Seq<u8> },
    UseTube { tube: Seq<u8> },
    ListTubes,
    StatsTube { tube: Seq<u8> },
    PeekReady,
    PeekDelayed,
    PeekBuried,
}

impl View for Command {
    type V = CommandView;

    open spec fn view(&self) -> CommandView {
        match self {
            Command::Put { data } => CommandView::Put { data: data@ },
            Command::Reserve => CommandView::Reserve,
            Command::Delete { id } => CommandView::Delete { id: *id },
            Command::Release { id } => CommandView::Release { id: *id },
            Command::Watch { tube } => CommandView::Watch { tube: tube@ },
            Command::UseTube { tube } => CommandView::UseTube { tube: tube@ },
            Command::ListTubes => CommandView::ListTubes,
            Command::StatsTube { tube } => CommandView::StatsTube { tube: tube@ },
            Command::PeekReady => CommandView::PeekReady,
            Command::PeekDelayed => CommandView::PeekDelayed,
            Command::PeekBuried => CommandView::PeekBuried,
        }
    }
}

impl CommandView {
    /// The verb of the command.
    pub open spec fn verb(self) -> Verb {
        match self {
            CommandView::Put { .. } => Verb::Put,
            CommandView::Reserve => Verb::Reserve,
            CommandView::Delete { .. } => Verb::Delete,
            CommandView::Release { .. } => Verb::Release,
            CommandView::Watch { .. } => Verb::Watch,
            CommandView::UseTube { .. } => Verb::Use,
            CommandView::ListTubes => Verb::ListTubes,
            CommandView::StatsTube { .. } => Verb::StatsTube,
            CommandView::PeekReady => Verb::PeekReady,
            CommandView::PeekDelayed => Verb::PeekDelayed,
            CommandView::PeekBuried => Verb::PeekBuried,
        }
    }
}

/// The keyword `put`, byte by byte.
pub proof fn lemma_put_bytes()
    ensures
        Verb::Put.keyword() =~= seq!['p' as u8, 'u' as u8, 't' as u8],
{
    reveal_strlit("put");
    assert(vstd::string::is_ascii("put"));
}

/// The keyword `reserve`, byte by byte.
pub proof fn lemma_reserve_bytes()
    ensures
        Verb::Reserve.keyword() =~= seq![
            'r' as u8, 'e' as u8, 's' as u8, 'e' as u8, 'r' as u8, 'v' as u8, 'e' as u8,
        ],
{
    reveal_strlit("reserve");
    assert(vstd::string::is_ascii("reserve"));
}

/// The keyword `delete`, byte by byte.
pub proof fn lemma_delete_bytes()
    ensures
        Verb::Delete.keyword() =~= seq![
            'd' as u8, 'e' as u8, 'l' as u8, 'e' as u8, 't' as u8, 'e' as u8,
        ],
{
    reveal_strlit("delete");
    assert(vstd::string::is_ascii("delete"));
}

/// The keyword `release`, byte by byte.
pub proof fn lemma_release_bytes()
    ensures
        Verb::Release.keyword() =~= seq![
            'r' as u8, 'e' as u8, 'l' as u8, 'e' as u8, 'a' as u8, 's' as u8, 'e' as u8,
        ],
{
    reveal_strlit("release");
    assert(vstd::string::is_ascii("release"));
}

/// The keyword `watch`, byte by byte.
pub proof fn lemma_watch_bytes()
    ensures
        Verb::Watch.keyword() =~= seq!['w' as u8, 'a' as u8, 't' as u8, 'c' as u8, 'h' as u8],
{
    reveal_strlit("watch");
    assert(vstd::string::is_ascii("watch"));
}

/// The keyword `use`, byte by byte.
pub proof fn lemma_use_bytes()
    ensures
        Verb::Use.keyword() =~= seq!['u' as u8, 's' as u8, 'e' as u8],
{
    reveal_strlit("use");
    assert(vstd::string::is_ascii("use"));
}

/// The keyword `list-tubes`, byte by byte.
pub proof fn lemma_list_tubes_bytes()
    ensures
        Verb::ListTubes.keyword() =~= seq![
            'l' as u8, 'i' as u8, 's' as u8, 't' as u8, '-' as u8, 't' as u8, 'u' as u8, 'b' as u8,
            'e' as u8, 's' as u8,
        ],
{
    reveal_strlit("list-tubes");
    assert(vstd::string::is_ascii("list-tubes"));
}

/// The keyword `stats-tube`, byte by byte.
pub proof fn lemma_stats_tube_bytes()
    ensures
        Verb::StatsTube.keyword() =~= seq![
            's' as u8, 't' as u8, 'a' as u8, 't' as u8, 's' as u8, '-' as u8, 't' as u8, 'u' as u8,
            'b' as u8, 'e' as u8,
        ],
{
    reveal_strlit("stats-tube");
    assert(vstd::string::is_ascii("stats-tube"));
}

/// The keyword `peek-ready`, byte by byte.
pub proof fn lemma_peek_ready_bytes()
    ensures
        Verb::PeekReady.keyword() =~= seq![
            'p' as u8, 'e' as u8, 'e' as u8, 'k' as u8, '-' as u8, 'r' as u8, 'e' as u8, 'a' as u8,
            'd' as u8, 'y' as u8,
        ],
{
    reveal_strlit("peek-ready");
    assert(vstd::string::is_ascii("peek-ready"));
}

/// The keyword `peek-delayed`, byte by byte.
pub proof fn lemma_peek_delayed_bytes()
    ensures
        Verb::PeekDelayed.keyword() =~= seq![
            'p' as u8, 'e' as u8, 'e' as u8, 'k' as u8, '-' as u8, 'd' as u8, 'e' as u8, 'l' as u8,
            'a' as u8, 'y' as u8, 'e' as u8, 'd' as u8,
        ],
{
    reveal_strlit("peek-delayed");
    assert(vstd::string::is_ascii("peek-delayed"));
}

/// The keyword `peek-buried`, byte by byte.
pub proof fn lemma_peek_buried_bytes()
    ensures
        Verb::PeekBuried.keyword() =~= seq![
            'p' as u8, 'e' as u8, 'e' as u8, 'k' as u8, '-' as u8, 'b' as u8, 'u' as u8, 'r' as u8,
            'i' as u8, 'e' as u8, 'd' as u8,
        ],
{
    reveal_strlit("peek-buried");
    assert(vstd::string::is_ascii("peek-buried"));
}

/// Every verb stands in [`verbs`].
pub proof fn lemma_verbs_complete(v: Verb)
    ensures
        exists|i: int| 0 <= i < VERB_COUNT && verbs()[i] == v,
{
    match v {
        Verb::Put => assert(verbs()[0] == v),
        Verb::Reserve => assert(verbs()[1] == v),
        Verb::Delete => assert(verbs()[2] == v),
        Verb::Release => assert(verbs()[3] == v),
        Verb::Watch => assert(verbs()[4] == v),
        Verb::Use => assert(verbs()[5] == v),
        Verb::ListTubes => assert(verbs()[6] == v),
        Verb::StatsTube => assert(verbs()[7] == v),
        Verb::PeekReady => assert(verbs()[8] == v),
        Verb::PeekDelayed => assert(verbs()[9] == v),
        Verb::PeekBuried => assert(verbs()[10] == v),
    }
}

/// No input starts with two keywords: the verb that a keyword names is
/// determined by the bytes it begins with.
pub proof fn lemma_keyword_names_one_verb(w: Seq<u8>, a: Verb, b: Verb)
    requires
        a.keyword().is_prefix_of(w),
        b.keyword().is_prefix_of(w),
    ensures
        a == b,
{
    lemma_put_bytes();
    lemma_reserve_bytes();
    lemma_delete_bytes();
    lemma_release_bytes();
    lemma_watch_bytes();
    lemma_use_bytes();
    lemma_list_tubes_bytes();
    lemma_stats_tube_bytes();
    lemma_peek_ready_bytes();
    lemma_peek_delayed_bytes();
    lemma_peek_buried_bytes();
    let ka = a.keyword();
    let kb = b.keyword();
    assert(ka.len() >= 3 && kb.len() >= 3);
    assert(ka[0] == w[0] && ka[1] == w[1] && ka[2] == w[2]) by {
        assert(w.subrange(0, ka.len() as int)[0] == w[0]);
        assert(w.subrange(0, ka.len() as int)[1] == w[1]);
        assert(w.subrange(0, ka.len() as int)[2] == w[2]);
    }
    assert(kb[0] == w[0] && kb[1] == w[1] && kb[2] == w[2]) by {
        assert(w.subrange(0, kb.len() as int)[0] == w[0]);
        assert(w.subrange(0, kb.len() as int)[1] == w[1]);
        assert(w.subrange(0, kb.len() as int)[2] == w[2]);
    }
    if ka.len() > 5 && kb.len() > 5 {
        assert(w.subrange(0, ka.len() as int)[5] == w[5]);
        assert(w.subrange(0, kb.len() as int)[5] == w[5]);
        assert(ka[5] == kb[5]);
    }
}

} // verus!
