use vstd::prelude::*;
use vstd::utf8::{decode_utf8, encode_utf8, valid_utf8};

verus! {

pub const BEL: u8 = 0x7;

pub const ESC: u8 = 0x1b;

/// `ESC P`, the opening of a device control string.
pub open spec fn dcs_intro() -> Seq<u8> {
    seq![ESC, 0x50u8]
}

/// `ESC [`, the opening of a control sequence.
pub open spec fn csi_intro() -> Seq<u8> {
    seq![ESC, 0x5bu8]
}

/// `ESC ]`, the opening of an operating system command.
pub open spec fn osc_intro() -> Seq<u8> {
    seq![ESC, 0x5du8]
}

/// `ESC \`, the string terminator.
pub open spec fn string_terminator() -> Seq<u8> {
    seq![ESC, 0x5cu8]
}

/// The decimal digits of `n`, most significant first, without padding.
pub open spec fn decimal(n: nat) -> Seq<u8>
    decreases n,
{
    if n < 10 {
        seq![(48 + n) as u8]
    } else {
        decimal(n / 10).push((48 + n % 10) as u8)
    }
}

/// The parts, separated by `;`.
pub open spec fn join(parts: Seq<Seq<u8>>) -> Seq<u8>
    decreases parts.len(),
{
    if parts.len() == 0 {
        seq![]
    } else if parts.len() == 1 {
        parts[0]
    } else {
        join(parts.drop_last()) + seq![0x3bu8] + parts.last()
    }
}

pub open spec fn numbers_bytes(ns: Seq<u16>) -> Seq<u8> {
    join(ns.map_values(|n: u16| decimal(n as nat)))
}

/// Parameters and their subparameters, all in decimal and all separated by `;`.
pub open spec fn params_bytes(ps: Seq<Seq<u16>>) -> Seq<u8> {
    join(ps.map_values(|g: Seq<u16>| numbers_bytes(g)))
}

/// The final byte of a dispatch, as the parser hands it over.
pub open spec fn action_byte(c: char) -> u8 {
    (c as u32) as u8
}

/// `ESC ] 0 ; title ESC \`.
pub open spec fn title_sequence(t: Seq<char>) -> Seq<u8> {
    osc_intro() + seq![0x30u8, 0x3bu8] + encode_utf8(t) + string_terminator()
}

/// The parameters that the parser reports for a sequence that has none.
pub open spec fn default_params(ps: Seq<Seq<u16>>) -> bool {
    ps == seq![seq![0u16]]
}

/// The parameters of a device control string as written: none where the
/// parser reported only its default.
pub open spec fn hook_params_bytes(ps: Seq<Seq<u16>>) -> Seq<u8> {
    if default_params(ps) {
        seq![]
    } else {
        params_bytes(ps)
    }
}

/// An OSC that sets the window title: exactly two parameters, the first `0`.
pub open spec fn is_title_osc(ps: Seq<Seq<u8>>) -> bool {
    ps.len() == 2 && ps[0] == seq![0x30u8]
}

/// What the escape-sequence parser reports, one callback at a time.
pub enum Action {
    Print(char),
    Execute(u8),
    Hook(Seq<Seq<u16>>, Seq<u8>, char),
    Put(u8),
    Unhook,
    OscDispatch(Seq<Seq<u8>>, bool),
    CsiDispatch(Seq<Seq<u16>>, Seq<u8>, char),
    EscDispatch(Seq<u8>, u8),
}

/// The observable state of the filter.
pub struct FilterView {
    pub buffer: Seq<u8>,
    pub in_title: Seq<char>,
    pub out_title: Seq<char>,
    pub pending: bool,
    pub in_dcs: bool,
    /// A string was just ended by the `ESC` of `ESC \` and its terminator
    /// written out; the `\` that the parser reports next is not written again.
    pub after_st: bool,
    /// The working directory that the shell reported; no sequence sets it.
    pub directory: Seq<char>,
}

impl FilterView {
    /// A deferred title exists only inside a device control string.
    pub open spec fn inv(self) -> bool {
        self.pending ==> self.in_dcs
    }
}

/// The bytes that re-emit an action that is passed through.
pub open spec fn reemitted(a: Action) -> Seq<u8> {
    match a {
        Action::Print(c) => encode_utf8(seq![c]),
        Action::Execute(b) => seq![b],
        Action::Hook(ps, inter, c) => dcs_intro() + hook_params_bytes(ps) + inter + seq![
            action_byte(c),
        ],
        Action::Put(b) => seq![b],
        Action::Unhook => string_terminator(),
        Action::OscDispatch(ps, bell) => osc_intro() + join(ps) + (if bell {
            seq![BEL]
        } else {
            string_terminator()
        }),
        Action::CsiDispatch(ps, inter, c) => csi_intro() + params_bytes(ps) + inter + seq![
            action_byte(c),
        ],
        Action::EscDispatch(inter, b) => seq![ESC] + inter + seq![b],
    }
}

pub open spec fn is_title_action(a: Action) -> bool {
    match a {
        Action::OscDispatch(ps, _) => is_title_osc(ps),
        _ => false,
    }
}

/// The `\` of a string terminator whose `ESC` ended a string.
pub open spec fn is_terminator_tail(a: Action) -> bool {
    match a {
        Action::EscDispatch(inter, b) => inter.len() == 0 && b == 0x5c,
        _ => false,
    }
}

/// The effect of one parser callback on the filter.
pub open spec fn step(s: FilterView, a: Action) -> FilterView {
    match a {
        Action::OscDispatch(ps, bell) => if is_title_osc(ps) {
            FilterView {
                in_title: if valid_utf8(ps[1]) {
                    decode_utf8(ps[1])
                } else {
                    s.in_title
                },
                after_st: !bell,
                ..s
            }
        } else {
            FilterView { buffer: s.buffer + reemitted(a), after_st: !bell, ..s }
        },
        Action::EscDispatch(_, _) => if s.after_st && is_terminator_tail(a) {
            FilterView { after_st: false, ..s }
        } else {
            FilterView { buffer: s.buffer + reemitted(a), after_st: false, ..s }
        },
        Action::Hook(_, _, _) => FilterView {
            buffer: s.buffer + reemitted(a),
            in_dcs: true,
            after_st: false,
            ..s
        },
        Action::Unhook => FilterView {
            buffer: s.buffer + string_terminator() + (if s.pending {
                title_sequence(s.out_title)
            } else {
                seq![]
            }),
            in_dcs: false,
            pending: false,
            after_st: true,
            ..s
        },
        _ => FilterView { buffer: s.buffer + reemitted(a), after_st: false, ..s },
    }
}

/// The effect of a series of callbacks, in order.
pub open spec fn run(s: FilterView, acts: Seq<Action>) -> FilterView
    decreases acts.len(),
{
    if acts.len() == 0 {
        s
    } else {
        run(step(s, acts[0]), acts.drop_first())
    }
}

/// The effect of asking for an outbound title.
pub open spec fn with_out_title(s: FilterView, t: Seq<char>) -> FilterView {
    if t == s.out_title {
        s
    } else if s.in_dcs {
        FilterView { out_title: t, pending: true, ..s }
    } else {
        FilterView { out_title: t, buffer: s.buffer + title_sequence(t), ..s }
    }
}

/// A title is deferred only inside a device control string, whatever the
/// parser reports.
pub proof fn lemma_step_inv(s: FilterView, a: Action)
    requires
        s.inv(),
    ensures
        step(s, a).inv(),
{
}

pub proof fn lemma_run_inv(s: FilterView, acts: Seq<Action>)
    requires
        s.inv(),
    ensures
        run(s, acts).inv(),
    decreases acts.len(),
{
    if acts.len() > 0 {
        lemma_run_inv(step(s, acts[0]), acts.drop_first());
    }
}

pub proof fn lemma_run_concat(s: FilterView, a: Seq<Action>, b: Seq<Action>)
    ensures
        run(run(s, a), b) == run(s, a + b),
    decreases a.len(),
{
    if a.len() == 0 {
        assert(a + b =~= b);
    } else {
        lemma_run_concat(step(s, a[0]), a.drop_first(), b);
        assert((a + b).drop_first() =~= a.drop_first() + b);
        assert((a + b)[0] == a[0]);
    }
}

/// The bytes that re-emit each action of a series, in order, where
/// `after_st` says whether a string was just ended by `ESC`: the `\` that
/// completes its terminator is written once.
pub open spec fn reemitted_all(after_st: bool, acts: Seq<Action>) -> Seq<u8>
    decreases acts.len(),
{
    if acts.len() == 0 {
        seq![]
    } else {
        let a = acts[0];
        let bytes = if after_st && is_terminator_tail(a) {
            seq![]
        } else {
            reemitted(a)
        };
        let next = match a {
            Action::OscDispatch(_, bell) => !bell,
            Action::Unhook => true,
            _ => false,
        };
        bytes + reemitted_all(next, acts.drop_first())
    }
}

/// Transparency: when no title is deferred and no callback sets the window
/// title, the output grows by exactly the canonical bytes of each callback,
/// in order, and the titles are untouched.
pub proof fn lemma_transparent(s: FilterView, acts: Seq<Action>)
    requires
        !s.pending,
        forall|i: int| 0 <= i < acts.len() ==> !is_title_action(#[trigger] acts[i]),
    ensures
        run(s, acts).buffer == s.buffer + reemitted_all(s.after_st, acts),
        run(s, acts).in_title == s.in_title,
        run(s, acts).out_title == s.out_title,
        !run(s, acts).pending,
    decreases acts.len(),
{
    if acts.len() == 0 {
        assert(s.buffer + seq![] =~= s.buffer);
    } else {
        let rest = acts.drop_first();
        assert forall|i: int| 0 <= i < rest.len() implies !is_title_action(#[trigger] rest[i]) by {
            assert(rest[i] == acts[i + 1]);
        }
        assert(!is_title_action(acts[0]));
        let m = step(s, acts[0]);
        lemma_transparent(m, rest);
        match acts[0] {
            Action::Unhook => {
                assert(m.buffer =~= s.buffer + reemitted(acts[0]));
            },
            Action::EscDispatch(_, _) => {
                if s.after_st && is_terminator_tail(acts[0]) {
                    assert(m.buffer =~= s.buffer + seq![]);
                }
            },
            _ => {},
        }
        assert(run(s, acts).buffer =~= s.buffer + reemitted_all(s.after_st, acts));
    }
}

/// A title set outside a device control string is written at once, as
/// `ESC ] 0 ; title ESC \`.
pub proof fn lemma_title_immediate(s: FilterView, t: Seq<char>)
    requires
        s.inv(),
        !s.in_dcs,
        t != s.out_title,
    ensures
        with_out_title(s, t).buffer == s.buffer + title_sequence(t),
        !with_out_title(s, t).pending,
{
}

/// Asking for the same title twice writes and defers nothing the second time.
pub proof fn lemma_title_idempotent(s: FilterView, t: Seq<char>)
    ensures
        with_out_title(with_out_title(s, t), t) == with_out_title(s, t),
{
}

/// A title set inside a device control string writes nothing until the
/// string ends; it then follows the terminator at once.
pub proof fn lemma_title_deferred(s: FilterView, t: Seq<char>)
    requires
        s.in_dcs,
        t != s.out_title,
    ensures
        with_out_title(s, t).buffer == s.buffer,
        step(with_out_title(s, t), Action::Unhook).buffer == s.buffer + string_terminator()
            + title_sequence(t),
        !step(with_out_title(s, t), Action::Unhook).pending,
{
}

/// The callbacks for the payload bytes of a device control string.
pub open spec fn put_actions(bytes: Seq<u8>) -> Seq<Action> {
    bytes.map_values(|b: u8| Action::Put(b))
}

proof fn lemma_puts(w: FilterView, bytes: Seq<u8>)
    ensures
        run(w, put_actions(bytes)).buffer == w.buffer + bytes,
        run(w, put_actions(bytes)).pending == w.pending,
        run(w, put_actions(bytes)).out_title == w.out_title,
    decreases bytes.len(),
{
    if bytes.len() == 0 {
        assert(put_actions(bytes) =~= Seq::<Action>::empty());
        assert(w.buffer + bytes =~= w.buffer);
    } else {
        let rest = bytes.drop_first();
        assert(put_actions(bytes).drop_first() =~= put_actions(rest));
        assert(put_actions(bytes)[0] == Action::Put(bytes[0]));
        let m = step(w, Action::Put(bytes[0]));
        lemma_puts(m, rest);
        assert(m.buffer + rest =~= w.buffer + bytes);
    }
}

/// A title asked for inside a device control string is held back while the
/// payload passes through, and comes right after the string's terminator.
pub proof fn lemma_title_after_payload(s: FilterView, t: Seq<char>, payload: Seq<u8>)
    requires
        s.in_dcs,
        t != s.out_title,
    ensures
        run(with_out_title(s, t), put_actions(payload) + seq![Action::Unhook]).buffer == s.buffer
            + payload + string_terminator() + title_sequence(t),
        !run(with_out_title(s, t), put_actions(payload) + seq![Action::Unhook]).pending,
{
    let w = with_out_title(s, t);
    lemma_puts(w, payload);
    lemma_run_concat(w, put_actions(payload), seq![Action::Unhook]);
    let m = run(w, put_actions(payload));
    let u = seq![Action::Unhook];
    assert(u.drop_first() =~= Seq::<Action>::empty());
    assert(u[0] == Action::Unhook);
    assert(run(step(m, Action::Unhook), Seq::<Action>::empty()) == step(m, Action::Unhook));
    assert(run(m, u) == step(m, Action::Unhook));
}

/// Relies on `char::encode_utf8`: the UTF-8 bytes of one character.
#[verifier::external_body]
fn char_utf8(c: char) -> (r: Vec<u8>)
    ensures
        r@ == encode_utf8(seq![c]),
{
    let mut b = [0u8; 4];
    c.encode_utf8(&mut b).as_bytes().to_vec()
}

/// Relies on `std::str::from_utf8`: it succeeds exactly on valid UTF-8, which
/// it decodes.
#[verifier::external_body]
pub(crate) fn utf8_text(b: &[u8]) -> (r: Option<String>)
    ensures
        r.is_some() == valid_utf8(b@),
        r.is_some() ==> r.unwrap()@ == decode_utf8(b@),
{
    std::str::from_utf8(b).ok().map(|s| s.to_string())
}

proof fn lemma_encode_injective(a: Seq<char>, b: Seq<char>)
    requires
        encode_utf8(a) == encode_utf8(b),
    ensures
        a == b,
{
    vstd::utf8::encode_utf8_decode_utf8(a);
    vstd::utf8::encode_utf8_decode_utf8(b);
}

/// Whether two strings hold the same characters.
pub(crate) fn text_equal(a: &str, b: &str) -> (r: bool)
    ensures
        r == (a@ == b@),
{
    let same = bytes_equal(a.as_bytes(), b.as_bytes());
    proof {
        if same {
            lemma_encode_injective(a@, b@);
        }
    }
    same
}

fn bytes_equal(a: &[u8], b: &[u8]) -> (r: bool)
    ensures
        r == (a@ == b@),
{
    if a.len() != b.len() {
        return false;
    }
    let mut i: usize = 0;
    while i < a.len()
        invariant
            a@.len() == b@.len(),
            0 <= i <= a@.len(),
            a@.take(i as int) == b@.take(i as int),
        decreases a@.len() - i,
    {
        if a[i] != b[i] {
            return false;
        }
        assert(a@.take(i as int + 1) =~= a@.take(i as int).push(a@[i as int]));
        assert(b@.take(i as int + 1) =~= b@.take(i as int).push(b@[i as int]));
        i = i + 1;
    }
    assert(a@.take(i as int) =~= a@);
    assert(b@.take(i as int) =~= b@);
    true
}

/// The parser-facing half of the filter: what each callback writes.
pub struct FilterState {
    buffer: Vec<u8>,
    current_directory: String,
    in_window_title: String,
    out_window_title: String,
    out_window_title_pending: bool,
    in_dcs: bool,
    after_string_terminator: bool,
}

impl View for FilterState {
    type V = FilterView;

    closed spec fn view(&self) -> FilterView {
        FilterView {
            buffer: self.buffer@,
            in_title: self.in_window_title@,
            out_title: self.out_window_title@,
            pending: self.out_window_title_pending,
            in_dcs: self.in_dcs,
            after_st: self.after_string_terminator,
            directory: self.current_directory@,
        }
    }
}

impl FilterState {
    pub open spec fn wf(&self) -> bool {
        self@.inv()
    }

    pub fn new() -> (r: FilterState)
        ensures
            r.wf(),
            r@.buffer == Seq::<u8>::empty(),
            r@.in_title == "ttymon"@,
            r@.out_title == Seq::<char>::empty(),
            !r@.pending,
            !r@.in_dcs,
            !r@.after_st,
            r@.directory == Seq::<char>::empty(),
    {
        FilterState {
            buffer: Vec::new(),
            current_directory: String::new(),
            in_window_title: "ttymon".to_owned(),
            out_window_title: String::new(),
            out_window_title_pending: false,
            in_dcs: false,
            after_string_terminator: false,
        }
    }

    pub fn current_directory(&self) -> (r: &str)
        ensures
            r@ == self@.directory,
    {
        self.current_directory.as_str()
    }

    pub fn in_window_title(&self) -> (r: &str)
        ensures
            r@ == self@.in_title,
    {
        self.in_window_title.as_str()
    }

    pub fn buffer(&self) -> (r: &[u8])
        ensures
            r@ == self@.buffer,
    {
        self.buffer.as_slice()
    }

    pub fn clear_buffer(&mut self)
        requires
            old(self).wf(),
        ensures
            final(self).wf(),
            final(self)@ == (FilterView { buffer: seq![], ..old(self)@ }),
    {
        self.buffer.clear();
    }

    pub fn set_out_window_title(&mut self, title: &str)
        requires
            old(self).wf(),
        ensures
            final(self).wf(),
            final(self)@ == with_out_title(old(self)@, title@),
    {
        if !text_equal(self.out_window_title.as_str(), title) {
            self.out_window_title = title.to_owned();
            if self.in_dcs {
                self.out_window_title_pending = true;
            } else {
                self.append_window_title(title);
            }
        }
    }

    fn append(&mut self, byte: u8)
        ensures
            final(self)@ == (FilterView { buffer: old(self)@.buffer.push(byte), ..old(self)@ }),
    {
        self.buffer.push(byte);
    }

    fn append_many(&mut self, bytes: &[u8])
        ensures
            final(self)@ == (FilterView { buffer: old(self)@.buffer + bytes@, ..old(self)@ }),
    {
        let mut i: usize = 0;
        while i < bytes.len()
            invariant
                0 <= i <= bytes@.len(),
                self@ == (FilterView { buffer: old(self)@.buffer + bytes@.take(i as int), ..old(self)@ }),
            decreases bytes@.len() - i,
        {
            self.append(bytes[i]);
            assert(bytes@.take(i as int + 1) =~= bytes@.take(i as int).push(bytes@[i as int]));
            i = i + 1;
        }
        assert(bytes@.take(i as int) =~= bytes@);
    }

    fn append_u16(&mut self, val: u16)
        ensures
            final(self)@ == (FilterView { buffer: old(self)@.buffer + decimal(val as nat), ..old(self)@ }),
        decreases val,
    {
        if val >= 10 {
            self.append_u16(val / 10);
        }
        self.append(0x30u8 + (val % 10) as u8);
        assert(self@.buffer =~= old(self)@.buffer + decimal(val as nat));
    }

    fn append_numbers(&mut self, ns: &Vec<u16>)
        ensures
            final(self)@ == (FilterView { buffer: old(self)@.buffer + numbers_bytes(ns@), ..old(self)@ }),
    {
        let ghost f = |n: u16| decimal(n as nat);
        let mut i: usize = 0;
        while i < ns.len()
            invariant
                0 <= i <= ns@.len(),
                f == (|n: u16| decimal(n as nat)),
                self@ == (FilterView {
                    buffer: old(self)@.buffer + join(ns@.take(i as int).map_values(f)),
                    ..old(self)@
                }),
            decreases ns@.len() - i,
        {
            let ghost before = self@.buffer;
            if i != 0 {
                self.append(0x3bu8);
            }
            self.append_u16(ns[i]);
            proof {
                let prev = ns@.take(i as int).map_values(f);
                let next = ns@.take(i as int + 1).map_values(f);
                assert(next.drop_last() =~= prev);
                assert(next.last() == decimal(ns@[i as int] as nat));
                if i == 0 {
                    assert(prev =~= Seq::<Seq<u8>>::empty());
                    assert(before =~= old(self)@.buffer);
                }
                assert(self@.buffer =~= old(self)@.buffer + join(next));
            }
            i = i + 1;
        }
        assert(ns@.take(i as int) =~= ns@);
    }

    fn append_params(&mut self, params: &Vec<Vec<u16>>)
        ensures
            final(self)@ == (FilterView {
                buffer: old(self)@.buffer + params_bytes(params@.map_values(|v: Vec<u16>| v@)),
                ..old(self)@
            }),
    {
        let ghost ps = params@.map_values(|v: Vec<u16>| v@);
        let ghost g = |x: Seq<u16>| numbers_bytes(x);
        let mut i: usize = 0;
        while i < params.len()
            invariant
                0 <= i <= params@.len(),
                ps == params@.map_values(|v: Vec<u16>| v@),
                g == (|x: Seq<u16>| numbers_bytes(x)),
                self@ == (FilterView {
                    buffer: old(self)@.buffer + join(ps.take(i as int).map_values(g)),
                    ..old(self)@
                }),
            decreases params@.len() - i,
        {
            let ghost before = self@.buffer;
            if i != 0 {
                self.append(0x3bu8);
            }
            self.append_numbers(&params[i]);
            proof {
                let prev = ps.take(i as int).map_values(g);
                let next = ps.take(i as int + 1).map_values(g);
                assert(next.drop_last() =~= prev);
                assert(next.last() == numbers_bytes(params@[i as int]@));
                if i == 0 {
                    assert(prev =~= Seq::<Seq<u8>>::empty());
                    assert(before =~= old(self)@.buffer);
                }
                assert(self@.buffer =~= old(self)@.buffer + join(next));
            }
            i = i + 1;
        }
        assert(ps.take(i as int) =~= ps);
    }

    fn append_window_title(&mut self, title: &str)
        ensures
            final(self)@ == (FilterView {
                buffer: old(self)@.buffer + title_sequence(title@),
                ..old(self)@
            }),
    {
        self.append(ESC);
        self.append(0x5du8);
        self.append(0x30u8);
        self.append(0x3bu8);
        self.append_many(title.as_bytes());
        self.append(ESC);
        self.append(0x5cu8);
        assert(self@.buffer =~= old(self)@.buffer + title_sequence(title@));
    }

    pub fn print(&mut self, c: char)
        ensures
            final(self)@ == step(old(self)@, Action::Print(c)),
    {
        self.after_string_terminator = false;
        let bytes = char_utf8(c);
        self.append_many(bytes.as_slice());
    }

    pub fn execute(&mut self, byte: u8)
        ensures
            final(self)@ == step(old(self)@, Action::Execute(byte)),
    {
        self.after_string_terminator = false;
        self.append(byte);
        assert(self@.buffer =~= old(self)@.buffer + seq![byte]);
    }

    pub fn hook(&mut self, params: &Vec<Vec<u16>>, intermediates: &[u8], action: char)
        ensures
            final(self)@ == step(
                old(self)@,
                Action::Hook(params@.map_values(|v: Vec<u16>| v@), intermediates@, action),
            ),
    {
        self.in_dcs = true;
        self.after_string_terminator = false;
        self.append(ESC);
        self.append(0x50u8);
        let default = params.len() == 1 && params[0].len() == 1 && params[0][0] == 0;
        let ghost ps = params@.map_values(|v: Vec<u16>| v@);
        if default {
            assert(ps.len() == 1);
            assert(ps[0] == params@[0]@);
            assert(ps[0] =~= seq![0u16]);
            assert(ps =~= seq![seq![0u16]]);
        } else {
            assert(!default_params(ps)) by {
                if default_params(ps) {
                    assert(ps.len() == 1);
                    assert(ps[0] == params@[0]@);
                    assert(ps[0].len() == 1);
                    assert(ps[0][0] == 0);
                }
            }
            self.append_params(params);
        }
        self.append_many(intermediates);
        let b = #[verifier::truncate] ((action as u32) as u8);
        self.append(b);
        assert(self@.buffer =~= old(self)@.buffer + reemitted(
            Action::Hook(params@.map_values(|v: Vec<u16>| v@), intermediates@, action),
        ));
    }

    pub fn put(&mut self, byte: u8)
        ensures
            final(self)@ == step(old(self)@, Action::Put(byte)),
    {
        self.after_string_terminator = false;
        self.append(byte);
        assert(self@.buffer =~= old(self)@.buffer + seq![byte]);
    }

    pub fn unhook(&mut self)
        ensures
            final(self)@ == step(old(self)@, Action::Unhook),
    {
        self.in_dcs = false;
        self.after_string_terminator = true;
        self.append(ESC);
        self.append(0x5cu8);
        if self.out_window_title_pending {
            self.out_window_title_pending = false;
            let title = self.out_window_title.clone();
            self.append_window_title(title.as_str());
        }
        assert(self@.buffer =~= step(old(self)@, Action::Unhook).buffer);
    }

    pub fn osc_dispatch(&mut self, params: &Vec<Vec<u8>>, bell_terminated: bool)
        ensures
            final(self)@ == step(
                old(self)@,
                Action::OscDispatch(params@.map_values(|v: Vec<u8>| v@), bell_terminated),
            ),
    {
        let ghost ps = params@.map_values(|v: Vec<u8>| v@);
        if params.len() == 2 && params[0].len() == 1 && params[0][0] == 0x30u8 {
            assert(ps[0] =~= seq![0x30u8]);
            if let Some(title) = utf8_text(params[1].as_slice()) {
                self.in_window_title = title;
            }
            self.after_string_terminator = !bell_terminated;
            return;
        }
        assert(!is_title_osc(ps)) by {
            if ps.len() == 2 && ps[0] == seq![0x30u8] {
                assert(ps[0].len() == 1);
            }
        }
        self.append(ESC);
        self.append(0x5du8);
        assert(ps.take(0) =~= Seq::<Seq<u8>>::empty());
        assert(self@.buffer =~= old(self)@.buffer + osc_intro() + join(ps.take(0)));
        let mut i: usize = 0;
        while i < params.len()
            invariant
                0 <= i <= params@.len(),
                ps == params@.map_values(|v: Vec<u8>| v@),
                self@ == (FilterView {
                    buffer: old(self)@.buffer + osc_intro() + join(ps.take(i as int)),
                    ..old(self)@
                }),
            decreases params@.len() - i,
        {
            let ghost before = self@.buffer;
            if i != 0 {
                self.append(0x3bu8);
            }
            self.append_many(params[i].as_slice());
            proof {
                let next = ps.take(i as int + 1);
                assert(next.drop_last() =~= ps.take(i as int));
                if i == 0 {
                    assert(ps.take(0) =~= Seq::<Seq<u8>>::empty());
                    assert(before =~= old(self)@.buffer + osc_intro() + join(ps.take(0)));
                }
                assert(self@.buffer =~= old(self)@.buffer + osc_intro() + join(next));
            }
            i = i + 1;
        }
        assert(ps.take(i as int) =~= ps);
        if bell_terminated {
            self.append(BEL);
        } else {
            self.append(ESC);
            self.append(0x5cu8);
        }
        self.after_string_terminator = !bell_terminated;
        assert(self@.buffer =~= old(self)@.buffer + reemitted(
            Action::OscDispatch(ps, bell_terminated),
        ));
    }

    pub fn csi_dispatch(&mut self, params: &Vec<Vec<u16>>, intermediates: &[u8], action: char)
        ensures
            final(self)@ == step(
                old(self)@,
                Action::CsiDispatch(params@.map_values(|v: Vec<u16>| v@), intermediates@, action),
            ),
    {
        self.after_string_terminator = false;
        self.append(ESC);
        self.append(0x5bu8);
        self.append_params(params);
        self.append_many(intermediates);
        let b = #[verifier::truncate] ((action as u32) as u8);
        self.append(b);
        assert(self@.buffer =~= old(self)@.buffer + reemitted(
            Action::CsiDispatch(params@.map_values(|v: Vec<u16>| v@), intermediates@, action),
        ));
    }

    pub fn esc_dispatch(&mut self, intermediates: &[u8], byte: u8)
        ensures
            final(self)@ == step(old(self)@, Action::EscDispatch(intermediates@, byte)),
    {
        let tail = self.after_string_terminator && intermediates.len() == 0 && byte == 0x5cu8;
        self.after_string_terminator = false;
        if tail {
            return;
        }
        self.append(ESC);
        self.append_many(intermediates);
        self.append(byte);
        assert(self@.buffer =~= old(self)@.buffer + reemitted(
            Action::EscDispatch(intermediates@, byte),
        ));
    }
}

#[verifier::external_type_specification]
#[verifier::external_body]
pub struct ExParser(vte::Parser);

#[verifier::external_type_specification]
#[verifier::external_body]
pub struct ExParams(vte::Params);

/// Relies on `vte::Parser::new`: a parser in its ground state.
pub assume_specification[ vte::Parser::new ]() -> vte::Parser;

/// What `vte::Parser::advance` does with one byte: the parser's next state,
/// and the callbacks that it makes, in order. Both follow from the parser's
/// state and the byte alone.
pub uninterp spec fn vte_advance(p: vte::Parser, byte: u8) -> (vte::Parser, Seq<Action>);

/// The parser after it has been fed `bytes`.
pub open spec fn parser_after(p: vte::Parser, bytes: Seq<u8>) -> vte::Parser
    decreases bytes.len(),
{
    if bytes.len() == 0 {
        p
    } else {
        vte_advance(parser_after(p, bytes.drop_last()), bytes.last()).0
    }
}

/// The callbacks that the parser makes, in order, when fed `bytes`.
pub open spec fn callbacks_of(p: vte::Parser, bytes: Seq<u8>) -> Seq<Action>
    decreases bytes.len(),
{
    if bytes.len() == 0 {
        seq![]
    } else {
        callbacks_of(p, bytes.drop_last()) + vte_advance(
            parser_after(p, bytes.drop_last()),
            bytes.last(),
        ).1
    }
}

/// Relies on `vte::Parser::advance`: it moves the parser to its next state and
/// makes the callbacks of `vte::Perform` on `state`, each of which is one step
/// of `FilterView` (see the impl below); which ones depends on the parser's
/// state and the byte.
#[verifier::external_body]
fn advance(parser: &mut vte::Parser, state: &mut FilterState, byte: u8)
    ensures
        *final(parser) == vte_advance(*old(parser), byte).0,
        final(state)@ == run(old(state)@, vte_advance(*old(parser), byte).1),
{
    parser.advance(state, byte)
}

impl vte::Perform for FilterState {
    #[verifier::external_body]
    fn print(&mut self, c: char) {
        FilterState::print(self, c)
    }

    #[verifier::external_body]
    fn execute(&mut self, byte: u8) {
        FilterState::execute(self, byte)
    }

    #[verifier::external_body]
    fn hook(&mut self, params: &vte::Params, intermediates: &[u8], _ignore: bool, action: char) {
        let params: Vec<Vec<u16>> = params.iter().map(|p| p.to_vec()).collect();
        FilterState::hook(self, &params, intermediates, action)
    }

    #[verifier::external_body]
    fn put(&mut self, byte: u8) {
        FilterState::put(self, byte)
    }

    #[verifier::external_body]
    fn unhook(&mut self) {
        FilterState::unhook(self)
    }

    #[verifier::external_body]
    fn osc_dispatch(&mut self, params: &[&[u8]], bell_terminated: bool) {
        let params: Vec<Vec<u8>> = params.iter().map(|p| p.to_vec()).collect();
        FilterState::osc_dispatch(self, &params, bell_terminated)
    }

    #[verifier::external_body]
    fn csi_dispatch(&mut self, params: &vte::Params, intermediates: &[u8], _ignore: bool, action: char) {
        let params: Vec<Vec<u16>> = params.iter().map(|p| p.to_vec()).collect();
        FilterState::csi_dispatch(self, &params, intermediates, action)
    }

    #[verifier::external_body]
    fn esc_dispatch(&mut self, intermediates: &[u8], _ignore: bool, byte: u8) {
        FilterState::esc_dispatch(self, intermediates, byte)
    }
}

/// The control-sequence filter: bytes from the shell go in, the bytes for the
/// terminal collect in a buffer, window titles are captured and injected.
pub struct Filter {
    parser: vte::Parser,
    state: FilterState,
}

impl View for Filter {
    type V = FilterView;

    closed spec fn view(&self) -> FilterView {
        self.state@
    }
}

impl Filter {
    pub open spec fn wf(&self) -> bool {
        self@.inv()
    }

    pub fn new() -> (r: Filter)
        ensures
            r.wf(),
            r@.buffer == Seq::<u8>::empty(),
            r@.in_title == "ttymon"@,
            r@.out_title == Seq::<char>::empty(),
            !r@.pending,
            !r@.in_dcs,
            !r@.after_st,
            r@.directory == Seq::<char>::empty(),
    {
        Filter { parser: vte::Parser::new(), state: FilterState::new() }
    }

    /// The state of the parser: what it has been fed so far decides it.
    pub closed spec fn parser(&self) -> vte::Parser {
        self.parser
    }

    /// Feeds bytes through the parser; the filter changes by exactly the
    /// callbacks that the parser makes on them.
    pub fn fill(&mut self, buffer: &[u8])
        requires
            old(self).wf(),
        ensures
            final(self).wf(),
            final(self)@ == run(old(self)@, callbacks_of(old(self).parser(), buffer@)),
            final(self).parser() == parser_after(old(self).parser(), buffer@),
    {
        let mut i: usize = 0;
        let ghost p0 = self.parser;
        assert(buffer@.take(0) =~= Seq::<u8>::empty());
        while i < buffer.len()
            invariant
                0 <= i <= buffer@.len(),
                p0 == old(self).parser(),
                self.parser == parser_after(p0, buffer@.take(i as int)),
                self@ == run(old(self)@, callbacks_of(p0, buffer@.take(i as int))),
            decreases buffer@.len() - i,
        {
            let ghost before = self@;
            let ghost pb = self.parser;
            advance(&mut self.parser, &mut self.state, buffer[i]);
            proof {
                let t = buffer@.take(i as int + 1);
                assert(t.drop_last() =~= buffer@.take(i as int));
                assert(t.last() == buffer@[i as int]);
                lemma_run_concat(
                    old(self)@,
                    callbacks_of(p0, buffer@.take(i as int)),
                    vte_advance(pb, buffer@[i as int]).1,
                );
            }
            i = i + 1;
        }
        assert(buffer@.take(i as int) =~= buffer@);
        proof {
            lemma_run_inv(old(self)@, callbacks_of(p0, buffer@));
        }
    }

    pub fn current_directory(&self) -> (r: &str)
        ensures
            r@ == self@.directory,
    {
        self.state.current_directory()
    }

    pub fn in_window_title(&self) -> (r: &str)
        ensures
            r@ == self@.in_title,
    {
        self.state.in_window_title()
    }

    pub fn set_out_window_title(&mut self, title: &str)
        requires
            old(self).wf(),
        ensures
            final(self).wf(),
            final(self)@ == with_out_title(old(self)@, title@),
    {
        self.state.set_out_window_title(title)
    }

    pub fn buffer(&self) -> (r: &[u8])
        ensures
            r@ == self@.buffer,
    {
        self.state.buffer()
    }

    pub fn clear_buffer(&mut self)
        requires
            old(self).wf(),
        ensures
            final(self).wf(),
            final(self)@ == (FilterView { buffer: seq![], ..old(self)@ }),
    {
        self.state.clear_buffer()
    }
}

} // verus!
