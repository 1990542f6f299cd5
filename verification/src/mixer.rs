use vstd::prelude::*;

verus! {

/// A request to play a loaded sound. `vol` is carried to whoever renders the
/// samples; the mixer's decisions read the other fields.
pub struct PlayCommand<V> {
    /// Which loaded sound to play.
    pub asset: usize,
    /// Most voices of this sound that may play at once; 0 for no limit.
    pub limit: usize,
    pub vol: V,
    pub music: bool,
    /// Silence and drop every voice before this command is considered.
    pub clear_all: bool,
}

/// One voice of the mixer: the command it plays, the position of its next
/// sample, and whether it has finished (its slot is free for reuse).
pub struct PlaybackContext<V> {
    pub n: usize,
    pub free: bool,
    pub com: PlayCommand<V>,
}

/// The voices that play at once.
pub struct Mixer<V> {
    pub voices: Vec<PlaybackContext<V>>,
}

/// Whether a voice is playing sound `asset`.
pub open spec fn plays_asset<V>(v: PlaybackContext<V>, asset: usize) -> bool {
    !v.free && v.com.asset == asset
}

/// The number of voices of `s` that are playing sound `asset`.
pub open spec fn active_count<V>(s: Seq<PlaybackContext<V>>, asset: usize) -> nat
    decreases s.len(),
{
    if s.len() == 0 {
        0
    } else {
        active_count(s.drop_last(), asset) + if plays_asset(s.last(), asset) {
            1nat
        } else {
            0nat
        }
    }
}

/// Whether some voice of `s` is free.
pub open spec fn has_free_voice<V>(s: Seq<PlaybackContext<V>>) -> bool {
    exists|i: int| 0 <= i < s.len() && #[trigger] s[i].free
}

/// Whether `i` is the lowest index of a free voice of `s`.
pub open spec fn is_first_free_voice<V>(s: Seq<PlaybackContext<V>>, i: int) -> bool {
    &&& 0 <= i < s.len()
    &&& s[i].free
    &&& forall|j: int| 0 <= j < i ==> !(#[trigger] s[j].free)
}

/// The lowest index of a free voice (meaningful when `has_free_voice(s)`).
pub open spec fn first_free_voice<V>(s: Seq<PlaybackContext<V>>) -> int {
    choose|i: int| is_first_free_voice(s, i)
}

/// A voice that starts playing `com` from its first sample.
pub open spec fn new_voice<V>(com: PlayCommand<V>) -> PlaybackContext<V> {
    PlaybackContext { n: 0, free: false, com }
}

/// The voices after command `com` arrives: all voices are dropped first when
/// it asks to clear; then, unless its sound already has `limit` voices
/// playing (a limit of 0 is no limit), it takes the lowest free slot, or a
/// new slot at the end when none is free.
pub open spec fn start_spec<V>(s: Seq<PlaybackContext<V>>, com: PlayCommand<V>) -> Seq<PlaybackContext<V>> {
    let s0 = if com.clear_all {
        Seq::<PlaybackContext<V>>::empty()
    } else {
        s
    };
    if com.limit == 0 || com.limit > active_count(s0, com.asset) {
        if has_free_voice(s0) {
            s0.update(first_free_voice(s0), new_voice(com))
        } else {
            s0.push(new_voice(com))
        }
    } else {
        s0
    }
}

/// Whether voice `v` sounds a sample this tick, given the lengths of the
/// loaded sounds: it is playing and its sound has a sample at its position.
pub open spec fn sounds_now<V>(v: PlaybackContext<V>, lens: Seq<usize>) -> bool {
    !v.free && v.n < lens[v.com.asset as int]
}

/// A voice after one tick: a playing voice moves to its next sample, and is
/// freed when its sound had no sample left at its position.
pub open spec fn ticked<V>(v: PlaybackContext<V>, lens: Seq<usize>) -> PlaybackContext<V> {
    if v.free {
        v
    } else {
        PlaybackContext { n: (v.n + 1) as usize, free: !sounds_now(v, lens), com: v.com }
    }
}

/// All voices after one tick.
pub open spec fn tick_spec<V>(s: Seq<PlaybackContext<V>>, lens: Seq<usize>) -> Seq<PlaybackContext<V>> {
    Seq::new(s.len(), |k: int| ticked(s[k], lens))
}

/// The voices among the first `k` of `s` that sound a sample this tick, in
/// order, each as (voice index, sample position).
pub open spec fn sounding<V>(s: Seq<PlaybackContext<V>>, lens: Seq<usize>, k: int) -> Seq<(usize, usize)>
    decreases k,
{
    if k <= 0 {
        Seq::empty()
    } else if sounds_now(s[k - 1], lens) {
        sounding(s, lens, k - 1).push(((k - 1) as usize, s[k - 1].n))
    } else {
        sounding(s, lens, k - 1)
    }
}

/// Whether every playing voice of `s` names a loaded sound and can move to a
/// next position.
pub open spec fn voices_ready<V>(s: Seq<PlaybackContext<V>>, lens: Seq<usize>) -> bool {
    forall|k: int|
        0 <= k < s.len() && !(#[trigger] s[k]).free ==> s[k].com.asset < lens.len() && s[k].n < usize::MAX
}

proof fn lemma_first_free_voice_below<V>(s: Seq<PlaybackContext<V>>, k: int)
    requires
        0 <= k < s.len(),
        s[k].free,
    ensures
        exists|i: int| is_first_free_voice(s, i),
    decreases k,
{
    if forall|j: int| 0 <= j < k ==> !(#[trigger] s[j].free) {
        assert(is_first_free_voice(s, k));
    } else {
        let j = choose|j: int| 0 <= j < k && #[trigger] s[j].free;
        lemma_first_free_voice_below(s, j);
    }
}

proof fn lemma_first_free_voice_unique<V>(s: Seq<PlaybackContext<V>>, i: int, j: int)
    requires
        is_first_free_voice(s, i),
        is_first_free_voice(s, j),
    ensures
        i == j,
{
}

/// With a free voice there is a lowest one.
pub proof fn lemma_first_free_voice_exists<V>(s: Seq<PlaybackContext<V>>)
    requires
        has_free_voice(s),
    ensures
        is_first_free_voice(s, first_free_voice(s)),
{
    let k = choose|i: int| 0 <= i < s.len() && #[trigger] s[i].free;
    lemma_first_free_voice_below(s, k);
}

/// Replacing one voice changes the count of a sound's playing voices by what
/// the old and the new voice contribute.
proof fn lemma_count_update<V>(s: Seq<PlaybackContext<V>>, i: int, v: PlaybackContext<V>, asset: usize)
    requires
        0 <= i < s.len(),
    ensures
        active_count(s.update(i, v), asset) + (if plays_asset(s[i], asset) {
            1int
        } else {
            0int
        }) == active_count(s, asset) + (if plays_asset(v, asset) {
            1int
        } else {
            0int
        }),
    decreases s.len(),
{
    let u = s.update(i, v);
    if i < s.len() - 1 {
        assert(u.drop_last() =~= s.drop_last().update(i, v));
        lemma_count_update(s.drop_last(), i, v, asset);
    } else {
        assert(u.drop_last() =~= s.drop_last());
    }
}

/// Appending a voice changes the count of a sound's playing voices by what
/// the new voice contributes.
proof fn lemma_count_push<V>(s: Seq<PlaybackContext<V>>, v: PlaybackContext<V>, asset: usize)
    ensures
        active_count(s.push(v), asset) == active_count(s, asset) + (if plays_asset(v, asset) {
            1nat
        } else {
            0nat
        }),
{
    assert(s.push(v).drop_last() =~= s);
}

impl<V> Mixer<V> {
    /// A mixer with no voices.
    pub fn new() -> (m: Self)
        ensures
            m.voices@ == Seq::<PlaybackContext<V>>::empty(),
    {
        Mixer { voices: Vec::new() }
    }

    /// The number of voices playing sound `asset`.
    pub fn count_active(&self, asset: usize) -> (c: usize)
        ensures
            c == active_count(self.voices@, asset),
    {
        let mut c: usize = 0;
        let mut k: usize = 0;
        while k < self.voices.len()
            invariant
                k <= self.voices@.len(),
                c <= k,
                c == active_count(self.voices@.take(k as int), asset),
            decreases self.voices@.len() - k,
        {
            assert(self.voices@.take(k + 1).drop_last() =~= self.voices@.take(k as int));
            if !self.voices[k].free && self.voices[k].com.asset == asset {
                c = c + 1;
            }
            k = k + 1;
        }
        assert(self.voices@.take(k as int) =~= self.voices@);
        c
    }

    /// Takes in one play command: drops every voice first when it asks to
    /// clear, then starts it in the lowest free slot (or a new one) unless its
    /// sound already has `limit` voices playing.
    pub fn start(&mut self, com: PlayCommand<V>)
        requires
            old(self).voices@.len() < usize::MAX,
        ensures
            final(self).voices@ == start_spec(old(self).voices@, com),
    {
        if com.clear_all {
            self.voices.clear();
        }
        let active = self.count_active(com.asset);
        if com.limit == 0 || com.limit > active {
            let mut idx: usize = 0;
            while idx < self.voices.len()
                invariant
                    idx <= self.voices@.len(),
                    self.voices@ == (if com.clear_all {
                        Seq::<PlaybackContext<V>>::empty()
                    } else {
                        old(self).voices@
                    }),
                    forall|j: int| 0 <= j < idx ==> !(#[trigger] self.voices@[j].free),
                    com.limit == 0 || com.limit > active_count(self.voices@, com.asset),
                decreases self.voices@.len() - idx,
            {
                if self.voices[idx].free {
                    proof {
                        assert(is_first_free_voice(self.voices@, idx as int));
                        lemma_first_free_voice_exists(self.voices@);
                        lemma_first_free_voice_unique(self.voices@, idx as int, first_free_voice(self.voices@));
                    }
                    self.voices.set(idx, PlaybackContext { n: 0, free: false, com });
                    return;
                }
                idx = idx + 1;
            }
            self.voices.push(PlaybackContext { n: 0, free: false, com });
        }
    }

    /// Moves every playing voice one sample on, freeing those whose sound has
    /// no sample left, and returns (voice index, sample position) of each
    /// voice that sounds a sample this tick, in voice order. `lens` holds the
    /// length of each loaded sound.
    pub fn tick(&mut self, lens: &[usize]) -> (playing: Vec<(usize, usize)>)
        requires
            voices_ready(old(self).voices@, lens@),
        ensures
            final(self).voices@ == tick_spec(old(self).voices@, lens@),
            playing@ == sounding(old(self).voices@, lens@, old(self).voices@.len() as int),
    {
        let ghost s = self.voices@;
        let mut playing: Vec<(usize, usize)> = Vec::new();
        let mut k: usize = 0;
        while k < self.voices.len()
            invariant
                self.voices@.len() == s.len(),
                k <= s.len(),
                voices_ready(s, lens@),
                forall|j: int| 0 <= j < k ==> #[trigger] self.voices@[j] == ticked(s[j], lens@),
                forall|j: int| k <= j < s.len() ==> #[trigger] self.voices@[j] == s[j],
                playing@ == sounding(s, lens@, k as int),
            decreases s.len() - k,
        {
            if !self.voices[k].free {
                let asset = self.voices[k].com.asset;
                let n = self.voices[k].n;
                let has_sample = n < lens[asset];
                if has_sample {
                    playing.push((k, n));
                }
                let voice = &mut self.voices[k];
                voice.free = !has_sample;
                voice.n = n + 1;
            }
            k = k + 1;
        }
        assert(self.voices@ =~= tick_spec(s, lens@));
        playing
    }
}

/// A command with a limit never raises the number of playing voices of its
/// sound above that limit.
pub proof fn lemma_start_respects_limit<V>(s: Seq<PlaybackContext<V>>, com: PlayCommand<V>)
    requires
        com.limit > 0,
        active_count(s, com.asset) <= com.limit,
    ensures
        active_count(start_spec(s, com), com.asset) <= com.limit,
{
    let s0 = if com.clear_all {
        Seq::<PlaybackContext<V>>::empty()
    } else {
        s
    };
    if com.limit > active_count(s0, com.asset) {
        if has_free_voice(s0) {
            lemma_first_free_voice_exists(s0);
            lemma_count_update(s0, first_free_voice(s0), new_voice(com), com.asset);
        } else {
            lemma_count_push(s0, new_voice(com), com.asset);
        }
    }
}

/// A command that does not clear never disturbs a voice that is playing:
/// it only takes a free slot or a new one.
pub proof fn lemma_start_keeps_playing_voices<V>(s: Seq<PlaybackContext<V>>, com: PlayCommand<V>, k: int)
    requires
        !com.clear_all,
        0 <= k < s.len(),
        !s[k].free,
    ensures
        k < start_spec(s, com).len(),
        start_spec(s, com)[k] == s[k],
{
    if has_free_voice(s) {
        lemma_first_free_voice_exists(s);
    }
}

/// A tick never raises the number of playing voices of any sound, and a
/// freed voice stays as it is.
pub proof fn lemma_tick_never_adds_voices<V>(s: Seq<PlaybackContext<V>>, lens: Seq<usize>, asset: usize)
    ensures
        active_count(tick_spec(s, lens), asset) <= active_count(s, asset),
        forall|k: int| 0 <= k < s.len() && s[k].free ==> #[trigger] tick_spec(s, lens)[k] == s[k],
    decreases s.len(),
{
    if s.len() > 0 {
        assert(tick_spec(s, lens).drop_last() =~= tick_spec(s.drop_last(), lens));
        lemma_tick_never_adds_voices(s.drop_last(), lens, asset);
    }
}

/// A command that clears always starts: afterwards exactly one voice is
/// left, playing that command from its first sample, whatever voices were
/// playing before and whatever the command's limit.
pub proof fn lemma_start_clearing_command<V>(s: Seq<PlaybackContext<V>>, com: PlayCommand<V>)
    requires
        com.clear_all,
    ensures
        start_spec(s, com).len() == 1,
        start_spec(s, com)[0].n == 0,
        !start_spec(s, com)[0].free,
        start_spec(s, com)[0].com == com,
{
    let e = Seq::<PlaybackContext<V>>::empty();
    assert(active_count(e, com.asset) == 0);
    assert(!has_free_voice(e));
}

/// A command that does not clear and finds its sound under the limit starts
/// in a slot that held no playing voice: that slot afterwards plays the
/// command from its first sample, and the number of slots grows only when no
/// slot was free.
pub proof fn lemma_start_within_limit<V>(s: Seq<PlaybackContext<V>>, com: PlayCommand<V>)
    requires
        !com.clear_all,
        com.limit == 0 || active_count(s, com.asset) < com.limit,
    ensures
        exists|k: int|
            0 <= k < start_spec(s, com).len() && (k == s.len() || s[k].free) && #[trigger] start_spec(
                s,
                com,
            )[k] == (PlaybackContext { n: 0, free: false, com }),
        start_spec(s, com).len() == s.len() + (if has_free_voice(s) {
            0int
        } else {
            1int
        }),
{
    if has_free_voice(s) {
        lemma_first_free_voice_exists(s);
        let k = first_free_voice(s);
        assert(start_spec(s, com)[k] == (PlaybackContext { n: 0, free: false, com }));
    } else {
        let k = s.len() as int;
        assert(start_spec(s, com)[k] == (PlaybackContext { n: 0, free: false, com }));
    }
}

/// A tick moves every voice that is playing and whose sound has a sample at
/// its position on by one sample and reports it with that position, whatever
/// else its command says; a playing voice whose sound has run out is freed
/// after moving on; a free voice is left alone.
pub proof fn lemma_tick_voice<V>(s: Seq<PlaybackContext<V>>, lens: Seq<usize>, k: int)
    requires
        0 <= k < s.len(),
        s.len() <= usize::MAX,
        s[k].n < usize::MAX,
    ensures
        !s[k].free && s[k].n < lens[s[k].com.asset as int] ==> {
            &&& tick_spec(s, lens)[k] == (PlaybackContext { n: (s[k].n + 1) as usize, free: false, com: s[k].com })
            &&& sounding(s, lens, s.len() as int).contains((k as usize, s[k].n))
        },
        !s[k].free && !(s[k].n < lens[s[k].com.asset as int]) ==> {
            &&& tick_spec(s, lens)[k] == (PlaybackContext { n: (s[k].n + 1) as usize, free: true, com: s[k].com })
            &&& !sounding(s, lens, s.len() as int).contains((k as usize, s[k].n))
        },
        s[k].free ==> tick_spec(s, lens)[k] == s[k],
{
    lemma_sounding_members(s, lens, s.len() as int);
    if !s[k].free && s[k].n < lens[s[k].com.asset as int] {
        lemma_sounding_has(s, lens, k, s.len() as int);
    }
}

/// Every entry that a tick reports is a voice of the first `j` that is
/// playing, reported with its own position, and its sound has a sample there;
/// entries come in increasing voice order.
pub proof fn lemma_sounding_members<V>(s: Seq<PlaybackContext<V>>, lens: Seq<usize>, j: int)
    requires
        0 <= j <= s.len(),
        s.len() <= usize::MAX,
    ensures
        forall|q: int|
            0 <= q < sounding(s, lens, j).len() ==> {
                let e = #[trigger] sounding(s, lens, j)[q];
                &&& 0 <= e.0 < j
                &&& !s[e.0 as int].free
                &&& e.1 == s[e.0 as int].n
                &&& s[e.0 as int].n < lens[s[e.0 as int].com.asset as int]
            },
        forall|q1: int, q2: int|
            0 <= q1 < q2 < sounding(s, lens, j).len() ==> #[trigger] sounding(s, lens, j)[q1].0
                < #[trigger] sounding(s, lens, j)[q2].0,
    decreases j,
{
    if j > 0 {
        lemma_sounding_members(s, lens, j - 1);
        let prev = sounding(s, lens, j - 1);
        if sounds_now(s[j - 1], lens) {
            let cur = prev.push(((j - 1) as usize, s[j - 1].n));
            assert(sounding(s, lens, j) == cur);
            assert forall|q: int| 0 <= q < prev.len() implies #[trigger] cur[q] == prev[q] by {}
            assert(cur[prev.len() as int] == ((j - 1) as usize, s[j - 1].n));
        } else {
            assert(sounding(s, lens, j) == prev);
        }
    }
}

proof fn lemma_sounding_has<V>(s: Seq<PlaybackContext<V>>, lens: Seq<usize>, k: int, j: int)
    requires
        0 <= k < j <= s.len(),
        s.len() <= usize::MAX,
        !s[k].free,
        s[k].n < lens[s[k].com.asset as int],
    ensures
        sounding(s, lens, j).contains((k as usize, s[k].n)),
    decreases j,
{
    if k == j - 1 {
        let prev = sounding(s, lens, j - 1);
        assert(sounding(s, lens, j) == prev.push((k as usize, s[k].n)));
        assert(sounding(s, lens, j)[prev.len() as int] == (k as usize, s[k].n));
    } else {
        lemma_sounding_has(s, lens, k, j - 1);
        let prev = sounding(s, lens, j - 1);
        let q = choose|q: int| 0 <= q < prev.len() && prev[q] == (k as usize, s[k].n);
        if sounds_now(s[j - 1], lens) {
            assert(sounding(s, lens, j)[q] == prev[q]);
        }
    }
}

/// A command that does not clear, for a sound that already has `limit`
/// voices playing (with a limit other than 0), is refused: the voices stay
/// exactly as they were.
pub proof fn lemma_start_at_limit_refused<V>(s: Seq<PlaybackContext<V>>, com: PlayCommand<V>)
    requires
        !com.clear_all,
        com.limit > 0,
        active_count(s, com.asset) >= com.limit,
    ensures
        start_spec(s, com) == s,
{
}

} // verus!
