use vstd::prelude::*;
use vstd::string::{StringExecFns, StringSliceAdditionalSpecFns};
use vstd::utf8::encode_utf8;

verus! {

/// A home directory without its trailing slashes.
pub open spec fn home_base(h: Seq<u8>) -> Seq<u8>
    decreases h.len(),
{
    if h.len() > 0 && h.last() == 0x2f {
        home_base(h.drop_last())
    } else {
        h
    }
}

/// The working directory as the title shows it: inside the home directory,
/// the home directory becomes `~`.
pub open spec fn shown_cwd(home: Seq<u8>, cwd: Seq<u8>) -> Seq<u8> {
    let hb = home_base(home);
    if hb.len() > 0 && cwd == hb {
        seq![0x7eu8, 0x2fu8]
    } else if hb.len() < cwd.len() && cwd.take(hb.len() as int) == hb && cwd[hb.len() as int]
        == 0x2f {
        seq![0x7eu8] + cwd.skip(hb.len() as int)
    } else {
        cwd
    }
}

/// ` - `, between the parts of a title.
pub open spec fn separator() -> Seq<u8> {
    seq![0x20u8, 0x2du8, 0x20u8]
}

/// `[container - ]cwd - argv0 - title`, in UTF-8.
pub open spec fn title_bytes(
    home: Seq<u8>,
    cwd: Seq<u8>,
    argv0: Seq<u8>,
    container_name: Option<Seq<u8>>,
    in_title: Seq<u8>,
) -> Seq<u8> {
    let prefix = match container_name {
        Some(n) => n + separator(),
        None => seq![],
    };
    prefix + shown_cwd(home, cwd) + separator() + argv0 + separator() + in_title
}

pub proof fn lemma_encode_concat(a: Seq<char>, b: Seq<char>)
    ensures
        encode_utf8(a + b) == encode_utf8(a) + encode_utf8(b),
    decreases a.len(),
{
    if a.len() == 0 {
        assert(a + b =~= b);
        assert(encode_utf8(a) =~= Seq::<u8>::empty());
        assert(encode_utf8(a) + encode_utf8(b) =~= encode_utf8(b));
    } else {
        lemma_encode_concat(a.drop_first(), b);
        assert((a + b).drop_first() =~= a.drop_first() + b);
        assert((a + b)[0] == a[0]);
    }
}

proof fn lemma_literals()
    ensures
        encode_utf8("~"@) == seq![0x7eu8],
        encode_utf8("~/"@) == seq![0x7eu8, 0x2fu8],
        encode_utf8(" - "@) == separator(),
{
    reveal_strlit("~");
    reveal_strlit("~/");
    reveal_strlit(" - ");
    assert(vstd::utf8::is_ascii_chars("~"@));
    assert(vstd::utf8::is_ascii_chars("~/"@));
    assert(vstd::utf8::is_ascii_chars(" - "@));
    vstd::utf8::is_ascii_chars_encode_utf8("~"@);
    vstd::utf8::is_ascii_chars_encode_utf8("~/"@);
    vstd::utf8::is_ascii_chars_encode_utf8(" - "@);
    assert(encode_utf8("~"@) =~= seq![0x7eu8]);
    assert(encode_utf8("~/"@) =~= seq![0x7eu8, 0x2fu8]);
    assert(encode_utf8(" - "@) =~= separator());
}

fn push_text(r: &mut String, t: &str)
    ensures
        encode_utf8(final(r)@) == encode_utf8(old(r)@) + encode_utf8(t@),
{
    proof {
        lemma_encode_concat(r@, t@);
    }
    r.append(t);
}

fn prefix_equal(a: &[u8], b: &[u8], n: usize) -> (r: bool)
    requires
        n <= a@.len(),
        n <= b@.len(),
    ensures
        r == (a@.take(n as int) == b@.take(n as int)),
{
    let mut i: usize = 0;
    while i < n
        invariant
            n <= a@.len(),
            n <= b@.len(),
            0 <= i <= n,
            a@.take(i as int) == b@.take(i as int),
        decreases n - i,
    {
        if a[i] != b[i] {
            assert(a@.take(n as int)[i as int] != b@.take(n as int)[i as int]);
            return false;
        }
        assert(a@.take(i as int + 1) =~= a@.take(i as int).push(a@[i as int]));
        assert(b@.take(i as int + 1) =~= b@.take(i as int).push(b@[i as int]));
        i = i + 1;
    }
    true
}

/// The window title: the container's name if there is one, the working
/// directory with the home directory shown as `~`, the foreground command
/// and the title that the shell set, joined by ` - `.
pub fn make_window_title(
    home: &str,
    cwd: &str,
    argv0: &str,
    container_name: Option<&str>,
    in_window_title: &str,
) -> (r: String)
    ensures
        encode_utf8(r@) == title_bytes(
            home.spec_bytes(),
            cwd.spec_bytes(),
            argv0.spec_bytes(),
            match container_name {
                Some(n) => Some(n.spec_bytes()),
                None => None,
            },
            in_window_title.spec_bytes(),
        ),
{
    let h = home.as_bytes();
    let c = cwd.as_bytes();
    let mut hl: usize = h.len();
    assert(h@.take(hl as int) =~= h@);
    while hl > 0 && h[hl - 1] == 0x2fu8
        invariant
            hl <= h@.len(),
            home_base(h@) == home_base(h@.take(hl as int)),
        decreases hl,
    {
        assert(h@.take(hl as int).drop_last() =~= h@.take(hl as int - 1));
        hl = hl - 1;
    }
    let ghost hb = home_base(h@);
    assert(hb == h@.take(hl as int));
    proof {
        lemma_literals();
    }
    let mut r = String::new();
    assert(encode_utf8(r@) =~= Seq::<u8>::empty());
    let ghost pre = match container_name {
        Some(n) => n.spec_bytes() + separator(),
        None => Seq::<u8>::empty(),
    };
    if let Some(n) = container_name {
        push_text(&mut r, n);
        push_text(&mut r, " - ");
    }
    assert(encode_utf8(r@) =~= pre);
    if hl > 0 && c.len() == hl && prefix_equal(c, h, hl) {
        assert(c@ =~= c@.take(hl as int));
        assert(c@ == hb);
        assert(shown_cwd(h@, c@) == seq![0x7eu8, 0x2fu8]);
        push_text(&mut r, "~/");
        assert(encode_utf8(r@) =~= pre + shown_cwd(h@, c@));
    } else if hl < c.len() && prefix_equal(c, h, hl) && c[hl] == 0x2fu8 {
        proof {
            vstd::utf8::encode_utf8_valid_utf8(cwd@);
            vstd::utf8::is_char_boundary_iff_not_is_continuation_byte(c@, hl as int);
        }
        let (_, rest) = cwd.split_at(hl);
        push_text(&mut r, "~");
        push_text(&mut r, rest);
        assert(rest.spec_bytes() =~= c@.skip(hl as int));
        assert(c@ != hb);
        assert(shown_cwd(h@, c@) == seq![0x7eu8] + c@.skip(hl as int));
        assert(encode_utf8(r@) =~= pre + shown_cwd(h@, c@));
    } else {
        proof {
            if hb.len() > 0 && c@ == hb {
                assert(c@.take(hl as int) =~= c@);
            }
        }
        assert(shown_cwd(h@, c@) == c@);
        push_text(&mut r, cwd);
        assert(encode_utf8(r@) =~= pre + shown_cwd(h@, c@));
    }
    assert(encode_utf8(r@) =~= pre + shown_cwd(h@, c@));
    push_text(&mut r, " - ");
    push_text(&mut r, argv0);
    push_text(&mut r, " - ");
    push_text(&mut r, in_window_title);
    assert(encode_utf8(r@) =~= pre + shown_cwd(h@, c@) + separator() + argv0.spec_bytes()
        + separator() + in_window_title.spec_bytes());
    r
}

} // verus!
