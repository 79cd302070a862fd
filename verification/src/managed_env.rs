//! The managed block in the engine's `.env` file.
//!
//! The engine takes its proxy settings from that file. The managed block stands between
//! two marker lines at the end of the file, so that its assignments win over earlier
//! ones; every other line belongs to the user and is kept. No credential is written.
use std::path::{Path, PathBuf};
use vstd::prelude::*;
use crate::managed_gateway;
use crate::number;
use crate::text;

verus! {

/// The line in front of the managed block.
pub const MANAGED_ENV_BEGIN: &'static str =
    "# >>> codex-plus-plus managed gateway (自动生成，请勿手改) >>>";

/// The line behind the managed block.
pub const MANAGED_ENV_END: &'static str = "# <<< codex-plus-plus managed gateway <<<";

#[verifier::external_type_specification]
#[verifier::external_body]
pub struct ExPath(Path);

#[verifier::external_type_specification]
#[verifier::external_body]
pub struct ExPathBuf(PathBuf);

/// A borrowed path as text.
pub uninterp spec fn path_text(path: &Path) -> Seq<char>;

/// An owned path as text.
pub uninterp spec fn path_buf_text(path: PathBuf) -> Seq<char>;

/// Whether `name` is the name of a file or directory and nothing more: no separator, no
/// drive, not the directory itself or its parent.
pub open spec fn plain_name(name: Seq<char>) -> bool {
    &&& name.len() > 0
    &&& name != "."@
    &&& name != ".."@
    &&& forall|i: int|
        0 <= i < name.len() ==> #[trigger] name[i] != '/' && name[i] != '\\' && name[i] != ':'
}

/// Whether a path has the prefix by which Windows takes it literally.
pub open spec fn verbatim(path: Seq<char>) -> bool {
    "\\\\?\\"@.is_prefix_of(path)
}

/// Whether `path` is `name` behind `base`, with at most a separator between them.
pub open spec fn adjoined(base: Seq<char>, name: Seq<char>, path: Seq<char>) -> bool {
    path == base + name || path == base.push('/') + name || path == base.push('\\') + name
}

/// Whether the last component of `path` is `name`: nothing or a separator stands in front
/// of it.
pub open spec fn names_file(name: Seq<char>, path: Seq<char>) -> bool {
    let n = path.len() - name.len();
    &&& name.is_suffix_of(path)
    &&& n == 0 || path[n - 1] == '/' || path[n - 1] == '\\' || path[n - 1] == ':'
}

/// `Path::join` adjoins a relative path: `name` becomes the last component, and stands
/// behind `base` with at most a separator between them. A verbatim base is normalised on the
/// way, so of it only the first is claimed.
#[verifier::external_body]
pub(crate) fn path_join(base: &Path, name: &str) -> (r: PathBuf)
    requires
        plain_name(name@),
    ensures
        names_file(name@, path_buf_text(r)),
        !verbatim(path_text(base)) ==> adjoined(path_text(base), name@, path_buf_text(r)),
{
    base.join(name)
}

/// Where the `.env` file stands under the engine's home directory.
pub fn managed_env_file_path(codex_home: &Path) -> (r: PathBuf)
    ensures
        names_file(".env"@, path_buf_text(r)),
        !verbatim(path_text(codex_home)) ==> adjoined(
            path_text(codex_home),
            ".env"@,
            path_buf_text(r),
        ),
{
    proof {
        reveal_strlit(".env");
        reveal_strlit(".");
        reveal_strlit("..");
        assert(".env"@.len() == 4 && "."@.len() == 1 && ".."@.len() == 2);
    }
    path_join(codex_home, ".env")
}

/// The address of the local proxy.
pub open spec fn proxy_address(proxy_port: u16) -> Seq<char> {
    "http://127.0.0.1:"@ + number::decimal(proxy_port as nat)
}

/// The hosts that the engine reaches without the proxy.
pub open spec fn no_proxy_hosts() -> Seq<char> {
    managed_gateway::MANAGED_GATEWAY_SOCKS5_HOST@ + ",127.0.0.1,localhost"@
}

/// The lines of the managed block.
pub open spec fn block_lines(proxy_port: u16) -> Seq<Seq<char>> {
    seq![
        MANAGED_ENV_BEGIN@.push('\n'),
        ("HTTP_PROXY="@ + proxy_address(proxy_port)).push('\n'),
        ("HTTPS_PROXY="@ + proxy_address(proxy_port)).push('\n'),
        ("NO_PROXY="@ + no_proxy_hosts()).push('\n'),
        MANAGED_ENV_END@.push('\n'),
    ]
}

/// The managed block.
pub open spec fn block_of(proxy_port: u16) -> Seq<char> {
    text::concatenated(block_lines(proxy_port))
}

/// Whether `line` is the marker in front of a managed block.
pub open spec fn is_begin(line: Seq<char>) -> bool {
    text::trimmed(line) == MANAGED_ENV_BEGIN@
}

/// Whether `line` is the marker behind a managed block.
pub open spec fn is_end(line: Seq<char>) -> bool {
    text::trimmed(line) == MANAGED_ENV_END@
}

/// Whether `line` is a marker.
pub open spec fn is_marker(line: Seq<char>) -> bool {
    is_begin(line) || is_end(line)
}

/// Whether one of `lines` is the marker behind a managed block.
pub open spec fn has_end(lines: Seq<Seq<char>>) -> bool {
    exists|i: int| 0 <= i < lines.len() && is_end(#[trigger] lines[i])
}

/// The lines that lie outside managed blocks, where `inside` says whether the last marker
/// in front of `lines` opens a block. A line lies in a block if the last marker in front of
/// it opens one and a later one closes it. Markers are left out.
pub open spec fn outside_lines(lines: Seq<Seq<char>>, inside: bool) -> Seq<Seq<char>>
    decreases lines.len(),
{
    if lines.len() == 0 {
        Seq::empty()
    } else {
        let rest = lines.drop_first();
        if is_begin(lines[0]) {
            outside_lines(rest, true)
        } else if is_end(lines[0]) {
            outside_lines(rest, false)
        } else if inside && has_end(rest) {
            outside_lines(rest, inside)
        } else {
            seq![lines[0]] + outside_lines(rest, inside)
        }
    }
}

/// `lines` without the blank ones at the end.
pub open spec fn without_trailing_blanks(lines: Seq<Seq<char>>) -> Seq<Seq<char>>
    decreases lines.len(),
{
    if lines.len() > 0 && text::blank(lines.last()) {
        without_trailing_blanks(lines.drop_last())
    } else {
        lines
    }
}

/// The user's lines of a `.env` file, each with its own line ending.
pub open spec fn user_lines(existing: Seq<char>) -> Seq<Seq<char>> {
    without_trailing_blanks(outside_lines(text::lines_of(existing), false))
}

/// A `.env` file without the managed block.
pub open spec fn removed(existing: Seq<char>) -> Seq<char> {
    text::concatenated(user_lines(existing))
}

/// A `.env` file with the managed block at its end, behind an empty line if there is
/// anything in front of it.
pub open spec fn upserted(existing: Seq<char>, proxy_port: u16) -> Seq<char> {
    if user_lines(existing).len() == 0 {
        block_of(proxy_port)
    } else {
        removed(existing) + seq!['\n'] + block_of(proxy_port)
    }
}

/// The hosts that the engine reaches without the proxy.
pub fn no_proxy_list() -> (r: String)
    ensures
        r@ == no_proxy_hosts(),
{
    let mut out: Vec<char> = Vec::new();
    text::push_text(&mut out, managed_gateway::MANAGED_GATEWAY_SOCKS5_HOST);
    text::push_text(&mut out, ",127.0.0.1,localhost");
    assert(out@ =~= no_proxy_hosts());
    text::string_of(out.as_slice())
}

/// The managed block: the proxy for both schemes, and the hosts that are left out of it.
pub fn render_managed_env_block(proxy_port: u16) -> (r: String)
    ensures
        r@ == block_of(proxy_port),
{
    let mut proxy: Vec<char> = Vec::new();
    text::push_text(&mut proxy, "http://127.0.0.1:");
    number::push_decimal(&mut proxy, proxy_port as u128);
    assert(proxy@ =~= proxy_address(proxy_port));
    let hosts = no_proxy_list();
    let mut out: Vec<char> = Vec::new();
    text::push_text(&mut out, MANAGED_ENV_BEGIN);
    out.push('\n');
    text::push_text(&mut out, "HTTP_PROXY=");
    text::push_chars(&mut out, proxy.as_slice());
    out.push('\n');
    text::push_text(&mut out, "HTTPS_PROXY=");
    text::push_chars(&mut out, proxy.as_slice());
    out.push('\n');
    text::push_text(&mut out, "NO_PROXY=");
    text::push_text(&mut out, hosts.as_str());
    out.push('\n');
    text::push_text(&mut out, MANAGED_ENV_END);
    out.push('\n');
    proof {
        let lines = block_lines(proxy_port);
        reveal_with_fuel(text::concatenated, 6);
        assert(lines.drop_last() =~= lines.take(4));
        assert(lines.take(4).drop_last() =~= lines.take(3));
        assert(lines.take(3).drop_last() =~= lines.take(2));
        assert(lines.take(2).drop_last() =~= lines.take(1));
        assert(lines.take(1).drop_last() =~= Seq::<Seq<char>>::empty());
        assert(out@ =~= block_of(proxy_port));
    }
    text::string_of(out.as_slice())
}

/// The number of lines up to the last marker that closes a block.
fn find_last_end(lines: &Vec<Vec<char>>) -> (r: usize)
    ensures
        r <= lines@.len(),
        r > 0 ==> is_end(text::views(lines@)[r - 1]),
        forall|j: int| r <= j < lines@.len() ==> !is_end(#[trigger] text::views(lines@)[j]),
{
    let mut r: usize = lines.len();
    while r > 0 && !text::is_text(text::trim(lines[r - 1].as_slice()), MANAGED_ENV_END)
        invariant
            r <= lines@.len(),
            forall|j: int| r <= j < lines@.len() ==> !is_end(#[trigger] text::views(lines@)[j]),
        decreases r,
    {
        r = r - 1;
    }
    r
}

/// Removes the managed block and keeps the user's lines.
pub fn remove_managed_env_block(existing: &str) -> (r: String)
    ensures
        r@ == removed(existing@),
{
    let cs = text::chars_of(existing);
    let lines = text::lines(cs.as_slice());
    let ghost all = text::views(lines@);
    let last_end: usize = find_last_end(&lines);
    let mut kept: Vec<Vec<char>> = Vec::new();
    let mut inside: bool = false;
    let n: usize = lines.len();
    let mut i: usize = 0;
    assert(all.skip(0) == all);
    assert(text::views(kept@) + outside_lines(all, false) =~= outside_lines(all, false));
    while i < n
        invariant
            i <= n,
            n == lines@.len(),
            all == text::views(lines@),
            last_end <= n,
            last_end > 0 ==> is_end(all[last_end - 1]),
            forall|j: int| last_end <= j < n ==> !is_end(#[trigger] all[j]),
            outside_lines(all, false) == text::views(kept@) + outside_lines(
                all.skip(i as int),
                inside,
            ),
        decreases n - i,
    {
        let trimmed = text::trim(lines[i].as_slice());
        assert(all.skip(i as int).drop_first() == all.skip(i + 1));
        assert(all.skip(i as int)[0] == lines@[i as int]@);
        assert(has_end(all.skip(i + 1)) == (i + 1 < last_end)) by {
            let rest = all.skip(i + 1);
            if i + 1 < last_end {
                assert(is_end(rest[last_end - 1 - (i + 1)]));
            } else if has_end(rest) {
                let j = choose|j: int| 0 <= j < rest.len() && is_end(#[trigger] rest[j]);
                assert(!is_end(all[i + 1 + j]));
            }
        }
        if text::is_text(trimmed, MANAGED_ENV_BEGIN) {
            inside = true;
        } else if text::is_text(trimmed, MANAGED_ENV_END) {
            inside = false;
        } else if !(inside && i + 1 < last_end) {
            let ghost so_far = kept@;
            let mut line: Vec<char> = Vec::new();
            text::push_chars(&mut line, lines[i].as_slice());
            assert(line@ =~= lines@[i as int]@);
            kept.push(line);
            assert(text::views(kept@) =~= text::views(so_far) + seq![line@]);
            assert(text::views(kept@) + outside_lines(all.skip(i + 1), inside) =~= text::views(
                so_far,
            ) + (seq![line@] + outside_lines(all.skip(i + 1), inside)));
        }
        i = i + 1;
    }
    assert(outside_lines(all, false) =~= text::views(kept@));
    let ghost outside = text::views(kept@);
    let mut m: usize = kept.len();
    assert(outside.take(m as int) == outside);
    while m > 0 && text::trim(kept[m - 1].as_slice()).len() == 0
        invariant
            m <= kept@.len(),
            outside == text::views(kept@),
            without_trailing_blanks(outside) == without_trailing_blanks(outside.take(m as int)),
        decreases m,
    {
        proof {
            text::lemma_trimmed_empty(kept@[m - 1]@);
            assert(outside.take(m as int).last() == kept@[m - 1]@);
            assert(outside.take(m as int).drop_last() == outside.take(m - 1));
        }
        m = m - 1;
    }
    proof {
        if m > 0 {
            text::lemma_trimmed_empty(kept@[m - 1]@);
            assert(outside.take(m as int).last() == kept@[m - 1]@);
        }
    }
    kept.truncate(m);
    assert(text::views(kept@) =~= outside.take(m as int));
    let out = text::concatenate(&kept);
    text::string_of(out.as_slice())
}

/// The last of the lines that are left is not blank, and what was left out is blank.
proof fn lemma_without_trailing_blanks(lines: Seq<Seq<char>>)
    ensures
        without_trailing_blanks(lines).len() <= lines.len(),
        without_trailing_blanks(lines) == lines.take(without_trailing_blanks(lines).len() as int),
        without_trailing_blanks(lines).len() > 0 ==> !text::blank(
            without_trailing_blanks(lines).last(),
        ),
        forall|i: int|
            without_trailing_blanks(lines).len() <= i < lines.len() ==> text::blank(
                #[trigger] lines[i],
            ),
    decreases lines.len(),
{
    if lines.len() > 0 && text::blank(lines.last()) {
        lemma_without_trailing_blanks(lines.drop_last());
        let k: int = without_trailing_blanks(lines).len() as int;
        assert(lines.drop_last().take(k) =~= lines.take(k));
        assert forall|i: int| k <= i < lines.len() implies text::blank(#[trigger] lines[i]) by {
            if i < lines.len() - 1 {
                assert(lines[i] == lines.drop_last()[i]);
            }
        }
    } else {
        assert(lines.take(lines.len() as int) =~= lines);
    }
}

/// Blank parts make a blank text.
proof fn lemma_blank_parts(parts: Seq<Seq<char>>)
    requires
        forall|i: int| 0 <= i < parts.len() ==> text::blank(#[trigger] parts[i]),
    ensures
        text::blank(text::concatenated(parts)),
    decreases parts.len(),
{
    if parts.len() > 0 {
        let front = text::concatenated(parts.drop_last());
        assert forall|i: int| 0 <= i < parts.drop_last().len() implies text::blank(
            #[trigger] parts.drop_last()[i],
        ) by {
            assert(parts.drop_last()[i] == parts[i]);
        }
        lemma_blank_parts(parts.drop_last());
        assert(text::blank(parts[parts.len() - 1]));
        let s = text::concatenated(parts);
        assert forall|i: int| 0 <= i < s.len() implies text::white_space(#[trigger] s[i]) by {
            if i < front.len() {
                assert(s[i] == front[i]);
            } else {
                assert(s[i] == parts.last()[i - front.len()]);
            }
        }
    }
}

/// Written lines whose last one is not blank are not blank.
proof fn lemma_lines_not_blank(lines: Seq<Seq<char>>)
    requires
        lines.len() > 0,
        !text::blank(lines.last()),
    ensures
        !text::blank(text::concatenated(lines)),
{
    let s = text::concatenated(lines);
    let last = lines.last();
    let j = choose|j: int| 0 <= j < last.len() && !text::white_space(#[trigger] last[j]);
    let at: int = text::concatenated(lines.drop_last()).len() + j;
    assert(s[at] == last[j]);
}

/// Every line outside the blocks is one of the lines.
proof fn lemma_outside_lines_are_lines(lines: Seq<Seq<char>>, inside: bool)
    ensures
        forall|i: int|
            0 <= i < outside_lines(lines, inside).len() ==> lines.contains(
                #[trigger] outside_lines(lines, inside)[i],
            ),
    decreases lines.len(),
{
    if lines.len() > 0 {
        let rest = lines.drop_first();
        lemma_outside_lines_are_lines(rest, true);
        lemma_outside_lines_are_lines(rest, false);
        let out = outside_lines(lines, inside);
        assert forall|x: Seq<char>| rest.contains(x) implies lines.contains(x) by {
            let k = choose|k: int| 0 <= k < rest.len() && rest[k] == x;
            assert(lines[k + 1] == x);
        }
        assert forall|i: int| 0 <= i < out.len() implies lines.contains(#[trigger] out[i]) by {
            assert(lines.contains(lines[0]));
            if is_begin(lines[0]) {
                assert(rest.contains(outside_lines(rest, true)[i]));
            } else if is_end(lines[0]) {
                assert(rest.contains(outside_lines(rest, false)[i]));
            } else if inside && has_end(rest) {
                assert(rest.contains(outside_lines(rest, inside)[i]));
            } else if i > 0 {
                assert(out[i] == outside_lines(rest, inside)[i - 1]);
                assert(rest.contains(outside_lines(rest, inside)[i - 1]));
            }
        }
    }
}

/// Writes the managed block, or brings it up to date.
pub fn upsert_managed_env_block(existing: &str, proxy_port: u16) -> (r: String)
    ensures
        r@ == upserted(existing@, proxy_port),
{
    let base = remove_managed_env_block(existing);
    let block = render_managed_env_block(proxy_port);
    let cs = text::chars_of(base.as_str());
    proof {
        let lines = user_lines(existing@);
        lemma_without_trailing_blanks(outside_lines(text::lines_of(existing@), false));
        text::lemma_trimmed_empty(cs@);
        if lines.len() > 0 {
            lemma_lines_not_blank(lines);
        }
    }
    if text::trim(cs.as_slice()).len() == 0 {
        return block;
    }
    let mut out: Vec<char> = Vec::new();
    text::push_chars(&mut out, cs.as_slice());
    out.push('\n');
    text::push_text(&mut out, block.as_str());
    assert(out@ =~= upserted(existing@, proxy_port));
    text::string_of(out.as_slice())
}

/// Whether none of `lines` is a marker.
pub open spec fn no_markers(lines: Seq<Seq<char>>) -> bool {
    forall|i: int| 0 <= i < lines.len() ==> !is_marker(#[trigger] lines[i])
}

/// Lines outside the blocks are no markers.
proof fn lemma_outside_lines_are_no_markers(lines: Seq<Seq<char>>, inside: bool)
    ensures
        no_markers(outside_lines(lines, inside)),
    decreases lines.len(),
{
    if lines.len() > 0 {
        let rest = lines.drop_first();
        lemma_outside_lines_are_no_markers(rest, true);
        lemma_outside_lines_are_no_markers(rest, false);
        let out = outside_lines(lines, inside);
        assert forall|i: int| 0 <= i < out.len() implies !is_marker(#[trigger] out[i]) by {
            if !is_marker(lines[0]) && !(inside && has_end(rest)) && i > 0 {
                assert(out[i] == outside_lines(rest, inside)[i - 1]);
            }
        }
    }
}

/// The user's lines are whole lines and no markers, and the last one is not blank.
proof fn lemma_user_lines(existing: Seq<char>)
    ensures
        no_markers(user_lines(existing)),
        text::whole_lines(user_lines(existing)),
        user_lines(existing).len() > 0 ==> !text::blank(user_lines(existing).last()),
{
    let lines = text::lines_of(existing);
    let outside = outside_lines(lines, false);
    let user = user_lines(existing);
    lemma_without_trailing_blanks(outside);
    lemma_outside_lines_are_lines(lines, false);
    lemma_outside_lines_are_no_markers(lines, false);
    text::lemma_lines_are_whole(existing);
    assert forall|i: int| 0 <= i < user.len() implies !is_marker(#[trigger] user[i]) by {
        assert(user[i] == outside[i]);
    }
    assert forall|i: int| 0 <= i < user.len() implies text::whole_line(#[trigger] user[i]) by {
        assert(user[i] == outside[i]);
        assert(lines.contains(outside[i]));
    }
}

/// The markers differ and hold no line feed, and a line that reads like one is one.
proof fn lemma_markers()
    ensures
        MANAGED_ENV_BEGIN@ != MANAGED_ENV_END@,
        is_begin(MANAGED_ENV_BEGIN@.push('\n')),
        is_end(MANAGED_ENV_END@.push('\n')),
        MANAGED_ENV_BEGIN@.len() > 0 && MANAGED_ENV_BEGIN@[0] == '#',
        MANAGED_ENV_END@.len() > 0 && MANAGED_ENV_END@[0] == '#',
        text::whole_line(MANAGED_ENV_BEGIN@.push('\n')),
        text::whole_line(MANAGED_ENV_END@.push('\n')),
{
    reveal_strlit("# >>> codex-plus-plus managed gateway (自动生成，请勿手改) >>>");
    reveal_strlit("# <<< codex-plus-plus managed gateway <<<");
    assert(MANAGED_ENV_BEGIN@[2] == '>');
    assert(MANAGED_ENV_END@[2] == '<');
    lemma_trimmed_line(MANAGED_ENV_BEGIN@);
    lemma_trimmed_line(MANAGED_ENV_END@);
}

/// Trimming takes the line feed off a line that neither begins nor ends in white space.
proof fn lemma_trimmed_line(s: Seq<char>)
    requires
        s.len() > 0,
        !text::white_space(s[0]),
        !text::white_space(s.last()),
    ensures
        text::trimmed(s.push('\n')) == s,
{
    let line = s.push('\n');
    assert(line[0] == s[0]);
    assert(line.drop_last() =~= s);
    assert(line.last() == '\n' && text::white_space(line.last()));
    assert(text::trim_start_of(line) == line);
    assert(text::trim_end_of(s) == s);
    assert(text::trim_end_of(line) == text::trim_end_of(line.drop_last()));
}

/// The assignments in the managed block are whole lines and no markers.
proof fn lemma_assignments(proxy_port: u16)
    ensures
        forall|i: int|
            1 <= i < 4 ==> text::whole_line(#[trigger] block_lines(proxy_port)[i]) && !is_marker(
                block_lines(proxy_port)[i],
            ),
{
    reveal_strlit("HTTP_PROXY=");
    reveal_strlit("HTTPS_PROXY=");
    reveal_strlit("NO_PROXY=");
    reveal_strlit("http://127.0.0.1:");
    reveal_strlit("10.20.30.61");
    reveal_strlit(",127.0.0.1,localhost");
    let lines = block_lines(proxy_port);
    let digits = number::decimal(proxy_port as nat);
    number::lemma_decimal(proxy_port as nat);
    let address = proxy_address(proxy_port);
    assert forall|j: int| 0 <= j < address.len() implies !text::white_space(
        #[trigger] address[j],
    ) by {
        if j >= "http://127.0.0.1:"@.len() {
            assert(number::is_digit(digits[j - "http://127.0.0.1:"@.len()]));
        }
    }
    assert forall|i: int| 1 <= i < 4 implies text::whole_line(#[trigger] lines[i]) && !is_marker(
        lines[i],
    ) by {
        let line = lines[i].drop_last();
        assert forall|j: int| 0 <= j < line.len() implies !text::white_space(
            #[trigger] line[j],
        ) by {
            if i == 1 {
                if j >= 11 {
                    assert(line[j] == address[j - 11]);
                }
            } else if i == 2 {
                if j >= 12 {
                    assert(line[j] == address[j - 12]);
                }
            }
        }
        assert(lines[i] =~= line.push('\n'));
        assert(!text::white_space(line[line.len() - 1]));
        lemma_trimmed_line(line);
        lemma_markers();
        assert(line[0] != '#');
        assert forall|j: int| 0 <= j < lines[i].len() - 1 implies #[trigger] lines[i][j]
            != '\n' by {
            assert(lines[i][j] == line[j]);
        }
    }
}

/// Lines without markers are all outside, and what follows them is judged on its own.
proof fn lemma_outside_after(a: Seq<Seq<char>>, b: Seq<Seq<char>>)
    requires
        no_markers(a),
    ensures
        outside_lines(a + b, false) == a + outside_lines(b, false),
    decreases a.len(),
{
    if a.len() == 0 {
        assert(a + b =~= b);
        assert(a + outside_lines(b, false) =~= outside_lines(b, false));
    } else {
        assert(!is_marker(a[0]));
        assert((a + b).drop_first() =~= a.drop_first() + b);
        assert forall|i: int| 0 <= i < a.drop_first().len() implies !is_marker(
            #[trigger] a.drop_first()[i],
        ) by {
            assert(a.drop_first()[i] == a[i + 1]);
        }
        lemma_outside_after(a.drop_first(), b);
        assert(outside_lines(a + b, false) =~= a + outside_lines(b, false));
    }
}

/// No line of the managed block lies outside it.
proof fn lemma_block_is_inside(proxy_port: u16)
    ensures
        outside_lines(block_lines(proxy_port), false).len() == 0,
{
    let lines = block_lines(proxy_port);
    lemma_markers();
    lemma_assignments(proxy_port);
    assert(!is_marker(lines[1]) && !is_marker(lines[2]) && !is_marker(lines[3]));
    let l1 = lines.drop_first();
    let l2 = l1.drop_first();
    let l3 = l2.drop_first();
    let l4 = l3.drop_first();
    assert(l1[0] == lines[1] && l2[0] == lines[2] && l3[0] == lines[3] && l4[0] == lines[4]);
    assert(is_end(l2[2]) && is_end(l3[1]) && is_end(l4[0]));
    assert(l4.drop_first() =~= Seq::<Seq<char>>::empty());
    assert(outside_lines(l4.drop_first(), false).len() == 0);
    assert(outside_lines(l4, true) == outside_lines(l4.drop_first(), false));
    assert(outside_lines(l3, true) == outside_lines(l4, true));
    assert(outside_lines(l2, true) == outside_lines(l3, true));
    assert(outside_lines(l1, true) == outside_lines(l2, true));
    assert(outside_lines(lines, false) == outside_lines(l1, true));
}

/// The lines of a file that the managed block was written to: the user's lines, an empty
/// line if there are any, and the block.
pub open spec fn upserted_lines(existing: Seq<char>, proxy_port: u16) -> Seq<Seq<char>> {
    if user_lines(existing).len() == 0 {
        block_lines(proxy_port)
    } else {
        user_lines(existing) + seq![seq!['\n']] + block_lines(proxy_port)
    }
}

/// After the managed block has been written, the file holds the user's lines in front and
/// the block at the end: its assignments are the last ones. Each marker stands on one line
/// and no more.
pub proof fn law_block_stands_last(existing: Seq<char>, proxy_port: u16)
    ensures
        text::lines_of(upserted(existing, proxy_port)) == upserted_lines(existing, proxy_port),
        block_lines(proxy_port).is_suffix_of(text::lines_of(upserted(existing, proxy_port))),
        forall|i: int|
            0 <= i < text::lines_of(upserted(existing, proxy_port)).len() ==> {
                let n = text::lines_of(upserted(existing, proxy_port)).len();
                let line = #[trigger] text::lines_of(upserted(existing, proxy_port))[i];
                (is_begin(line) <==> i == n - 5) && (is_end(line) <==> i == n - 1)
            },
{
    let user = user_lines(existing);
    let block = block_lines(proxy_port);
    let empty_line = seq!['\n'];
    let gap = seq![empty_line];
    let all = upserted_lines(existing, proxy_port);
    lemma_markers();
    lemma_assignments(proxy_port);
    lemma_user_lines(existing);
    assert forall|i: int| 0 <= i < all.len() implies text::whole_line(#[trigger] all[i]) by {
        if user.len() == 0 {
            assert(text::whole_line(block[i]));
        } else if i < user.len() {
            assert(all[i] == user[i]);
        } else if i > user.len() {
            assert(all[i] == block[i - user.len() - 1]);
        }
    }
    if user.len() > 0 {
        text::lemma_concatenated_concat(user + gap, block);
        text::lemma_concatenated_concat(user, gap);
        text::lemma_concatenated_one(empty_line);
    }
    assert(text::concatenated(all) =~= upserted(existing, proxy_port));
    text::lemma_lines_of_concatenated(all, Seq::empty());
    assert(text::concatenated(all) + Seq::<char>::empty() =~= text::concatenated(all));
    assert(all + text::lines_of(Seq::empty()) =~= all);
    assert(block =~= all.skip(all.len() - 5));
    lemma_empty_line_is_no_marker();
    assert forall|i: int| 0 <= i < all.len() implies (is_begin(#[trigger] all[i]) <==> i == all.len()
        - 5) && (is_end(all[i]) <==> i == all.len() - 1) by {
        let k = i - (all.len() - 5);
        if k >= 0 {
            assert(all[i] == block[k]);
            assert(k == 0 || k == 1 || k == 2 || k == 3 || k == 4);
        } else if i < user.len() {
            assert(all[i] == user[i]);
        } else {
            assert(all[i] == empty_line);
        }
    }
}

/// An empty line is no marker.
proof fn lemma_empty_line_is_no_marker()
    ensures
        !is_marker(seq!['\n']),
{
    lemma_markers();
    let line = seq!['\n'];
    assert(text::blank(line));
    text::lemma_trimmed_empty(line);
}

/// Blank lines at the end count for nothing.
proof fn lemma_trailing_gap(lines: Seq<Seq<char>>)
    requires
        lines.len() > 0 ==> !text::blank(lines.last()),
    ensures
        without_trailing_blanks(lines) == lines,
        without_trailing_blanks(lines + seq![seq!['\n']]) == lines,
{
    let longer = lines + seq![seq!['\n']];
    assert(text::blank(longer.last()));
    assert(longer.drop_last() =~= lines);
}

/// Writing the managed block leaves the user's lines as they are.
pub proof fn law_upsert_keeps_user_lines(existing: Seq<char>, proxy_port: u16)
    ensures
        user_lines(upserted(existing, proxy_port)) == user_lines(existing),
{
    let user = user_lines(existing);
    let block = block_lines(proxy_port);
    let gap = seq![seq!['\n']];
    law_block_stands_last(existing, proxy_port);
    lemma_user_lines(existing);
    lemma_block_is_inside(proxy_port);
    lemma_trailing_gap(user);
    if user.len() == 0 {
        assert(outside_lines(block, false) =~= user);
    } else {
        lemma_empty_line_is_no_marker();
        let front = user + gap;
        assert forall|i: int| 0 <= i < front.len() implies !is_marker(#[trigger] front[i]) by {
            if i < user.len() {
                assert(front[i] == user[i]);
            }
        }
        lemma_outside_after(front, block);
        assert(front + outside_lines(block, false) =~= front);
    }
}

/// Removing the managed block undoes writing it: what is left is what removal leaves of
/// the file as it was.
pub proof fn law_remove_undoes_upsert(existing: Seq<char>, proxy_port: u16)
    ensures
        removed(upserted(existing, proxy_port)) == removed(existing),
{
    law_upsert_keeps_user_lines(existing, proxy_port);
}

/// Writing the managed block a second time replaces the first, whatever port it named.
/// With the same port nothing changes.
pub proof fn law_upsert_replaces(existing: Seq<char>, first_port: u16, second_port: u16)
    ensures
        upserted(upserted(existing, first_port), second_port) == upserted(existing, second_port),
        upserted(upserted(existing, first_port), first_port) == upserted(existing, first_port),
{
    law_upsert_keeps_user_lines(existing, first_port);
}

/// Removing the managed block twice is the same as removing it once.
pub proof fn law_remove_is_idempotent(existing: Seq<char>)
    ensures
        removed(removed(existing)) == removed(existing),
{
    let user = user_lines(existing);
    lemma_user_lines(existing);
    text::lemma_lines_of_concatenated(user, Seq::empty());
    assert(text::concatenated(user) + Seq::<char>::empty() =~= text::concatenated(user));
    assert(user + text::lines_of(Seq::empty()) =~= user);
    lemma_outside_after(user, Seq::empty());
    assert(user + Seq::<Seq<char>>::empty() =~= user);
    assert(user + outside_lines(Seq::empty(), false) =~= user);
    lemma_trailing_gap(user);
}

/// A file without markers comes back as it is but for its end: what is left is the file up
/// to the end of its last line that is not blank, and that line is ended. Line endings stay
/// as they are.
pub proof fn law_file_without_block_stays(existing: Seq<char>)
    requires
        no_markers(text::lines_of(existing)),
    ensures
        removed(existing).is_prefix_of(text::ended(existing)),
        text::blank(text::ended(existing).skip(removed(existing).len() as int)),
        removed(existing).len() > 0 ==> text::whole_line(user_lines(existing).last())
            && !text::blank(user_lines(existing).last()),
{
    let lines = text::lines_of(existing);
    let nothing = Seq::<Seq<char>>::empty();
    lemma_outside_after(lines, nothing);
    assert(lines + nothing =~= lines);
    assert(lines + outside_lines(nothing, false) =~= lines);
    lemma_without_trailing_blanks(lines);
    lemma_user_lines(existing);
    let user = user_lines(existing);
    let rest = lines.skip(user.len() as int);
    assert(user + rest =~= lines);
    text::lemma_concatenated_concat(user, rest);
    text::lemma_concatenated_lines(existing);
    assert forall|i: int| 0 <= i < rest.len() implies text::blank(#[trigger] rest[i]) by {
        assert(rest[i] == lines[user.len() + i]);
    }
    lemma_blank_parts(rest);
    let whole = text::ended(existing);
    assert(whole.take(removed(existing).len() as int) =~= removed(existing));
    assert(whole.skip(removed(existing).len() as int) =~= text::concatenated(rest));
    if user.len() > 0 {
        assert(text::whole_line(user[user.len() - 1]));
    } else {
        assert(removed(existing).len() == 0);
    }
}

/// Whether the last marker in front of line `i` opens a block.
pub open spec fn opened_before(lines: Seq<Seq<char>>, inside: bool, i: int) -> bool
    decreases i,
{
    if i <= 0 {
        inside
    } else if is_begin(lines[i - 1]) {
        true
    } else if is_end(lines[i - 1]) {
        false
    } else {
        opened_before(lines, inside, i - 1)
    }
}

/// The first line can be taken into what is known of the markers in front.
proof fn lemma_opened_before(lines: Seq<Seq<char>>, inside: bool, i: int)
    requires
        1 <= i <= lines.len(),
    ensures
        opened_before(lines, inside, i) == opened_before(
            lines.drop_first(),
            opened_before(lines, inside, 1),
            i - 1,
        ),
    decreases i,
{
    if i > 1 {
        assert(lines.drop_first()[i - 2] == lines[i - 1]);
        lemma_opened_before(lines, inside, i - 1);
    }
}

/// Every line that is no marker stays unless it lies between the two markers: a block that
/// is opened and never closed takes no line away.
pub proof fn law_lines_outside_blocks_stay(lines: Seq<Seq<char>>, inside: bool, i: int)
    requires
        0 <= i < lines.len(),
        !is_marker(lines[i]),
        !(opened_before(lines, inside, i) && has_end(lines.skip(i + 1))),
    ensures
        outside_lines(lines, inside).contains(lines[i]),
    decreases lines.len(),
{
    let rest = lines.drop_first();
    let out = outside_lines(lines, inside);
    if i == 0 {
        assert(lines.skip(1) =~= rest);
        assert(out[0] == lines[0]);
    } else {
        lemma_opened_before(lines, inside, i);
        assert(lines.skip(i + 1) =~= rest.skip(i));
        assert(rest[i - 1] == lines[i]);
        let next = opened_before(lines, inside, 1);
        assert(opened_before(lines, inside, 0) == inside);
        law_lines_outside_blocks_stay(rest, next, i - 1);
        let kept = outside_lines(rest, next);
        let k = choose|k: int| 0 <= k < kept.len() && kept[k] == lines[i];
        if !is_marker(lines[0]) && !(inside && has_end(rest)) {
            assert(out[k + 1] == lines[i]);
        } else {
            assert(out[k] == lines[i]);
        }
    }
}

/// The block ends every file that it was written to.
pub proof fn law_block_ends_the_file(existing: Seq<char>, proxy_port: u16)
    ensures
        block_of(proxy_port).is_suffix_of(upserted(existing, proxy_port)),
{
    let s = upserted(existing, proxy_port);
    let block = block_of(proxy_port);
    assert(s.skip(s.len() - block.len()) =~= block);
}

/// What becomes of the `.env` file when the managed block is to go.
#[derive(Debug, Clone, PartialEq, Eq)]
pub enum EnvFileChange {
    /// It stays as it is.
    Keep,
    /// It is deleted: nothing but white space would be left.
    Delete,
    /// It is written anew.
    Write(String),
}

/// Decides what becomes of a `.env` file when the managed block is to go.
pub fn clear_managed_env(existing: &str) -> (r: EnvFileChange)
    ensures
        match r {
            EnvFileChange::Keep => removed(existing@) == existing@,
            EnvFileChange::Delete => removed(existing@) != existing@ && text::blank(
                removed(existing@),
            ),
            EnvFileChange::Write(updated) => updated@ == removed(existing@) && updated@ != existing@
                && !text::blank(updated@),
        },
{
    let updated = remove_managed_env_block(existing);
    let before = text::chars_of(existing);
    let after = text::chars_of(updated.as_str());
    if text::same_chars(before.as_slice(), after.as_slice()) {
        return EnvFileChange::Keep;
    }
    proof {
        text::lemma_trimmed_empty(after@);
    }
    if text::trim(after.as_slice()).len() == 0 {
        EnvFileChange::Delete
    } else {
        EnvFileChange::Write(updated)
    }
}

/// The block assigns the address of the local proxy, with its port, to both schemes, and
/// leaves the gateway and the local machine out, between its two markers.
pub proof fn law_block_assigns_the_proxy(proxy_port: u16)
    ensures
        block_of(proxy_port)
            == "# >>> codex-plus-plus managed gateway (自动生成，请勿手改) >>>\nHTTP_PROXY=http://127.0.0.1:"@
            + number::decimal(proxy_port as nat) + "\nHTTPS_PROXY=http://127.0.0.1:"@
            + number::decimal(proxy_port as nat)
            + "\nNO_PROXY=10.20.30.61,127.0.0.1,localhost\n# <<< codex-plus-plus managed gateway <<<\n"@,
{
    reveal_strlit("# >>> codex-plus-plus managed gateway (自动生成，请勿手改) >>>");
    reveal_strlit("# <<< codex-plus-plus managed gateway <<<");
    reveal_strlit("HTTP_PROXY=");
    reveal_strlit("HTTPS_PROXY=");
    reveal_strlit("NO_PROXY=");
    reveal_strlit("http://127.0.0.1:");
    reveal_strlit("10.20.30.61");
    reveal_strlit(",127.0.0.1,localhost");
    reveal_strlit(
        "# >>> codex-plus-plus managed gateway (自动生成，请勿手改) >>>\nHTTP_PROXY=http://127.0.0.1:",
    );
    reveal_strlit("\nHTTPS_PROXY=http://127.0.0.1:");
    reveal_strlit(
        "\nNO_PROXY=10.20.30.61,127.0.0.1,localhost\n# <<< codex-plus-plus managed gateway <<<\n",
    );
    let lines = block_lines(proxy_port);
    let digits = number::decimal(proxy_port as nat);
    let head =
        "# >>> codex-plus-plus managed gateway (自动生成，请勿手改) >>>\nHTTP_PROXY=http://127.0.0.1:"@;
    let middle = "\nHTTPS_PROXY=http://127.0.0.1:"@;
    let end =
        "\nNO_PROXY=10.20.30.61,127.0.0.1,localhost\n# <<< codex-plus-plus managed gateway <<<\n"@;
    reveal_with_fuel(text::concatenated, 6);
    assert(lines.drop_last() =~= lines.take(4));
    assert(lines.take(4).drop_last() =~= lines.take(3));
    assert(lines.take(3).drop_last() =~= lines.take(2));
    assert(lines.take(2).drop_last() =~= lines.take(1));
    assert(lines.take(1).drop_last() =~= Seq::<Seq<char>>::empty());
    assert(lines[0] + lines[1] =~= head + digits + seq!['\n']);
    assert(seq!['\n'] + lines[2] =~= middle + digits + seq!['\n']);
    assert(seq!['\n'] + lines[3] + lines[4] =~= end);
    assert(block_of(proxy_port) =~= lines[0] + lines[1] + lines[2] + (lines[3] + lines[4]));
    assert(lines[0] + lines[1] + lines[2] =~= head + digits + (seq!['\n'] + lines[2]));
    assert(block_of(proxy_port) =~= head + digits + middle + digits + (seq!['\n'] + lines[3]
        + lines[4]));
}

/// Whether `line` is a marker: one of the two texts with nothing but white space round it.
pub open spec fn reads_as_marker(line: Seq<char>) -> bool {
    ||| text::trimmed(line)
        == "# >>> codex-plus-plus managed gateway (自动生成，请勿手改) >>>"@
    ||| text::trimmed(line) == "# <<< codex-plus-plus managed gateway <<<"@
}

/// Removing takes out the markers and what is between them, whatever that is, and leaves what
/// is in front of the block and behind it, character by character. Only blank lines at the
/// end of the file go with it.
pub proof fn law_removing_takes_the_block_alone(
    front: Seq<Seq<char>>,
    block: Seq<Seq<char>>,
    back: Seq<Seq<char>>,
    gap: Seq<Seq<char>>,
)
    requires
        text::whole_lines(front),
        text::whole_lines(block),
        text::whole_lines(back),
        text::whole_lines(gap),
        forall|i: int| 0 <= i < front.len() ==> !reads_as_marker(#[trigger] front[i]),
        forall|i: int| 0 <= i < block.len() ==> !reads_as_marker(#[trigger] block[i]),
        forall|i: int| 0 <= i < back.len() ==> !reads_as_marker(#[trigger] back[i]),
        forall|i: int| 0 <= i < gap.len() ==> text::blank(#[trigger] gap[i]),
        back.len() > 0 ==> !text::blank(back.last()),
        back.len() == 0 && front.len() > 0 ==> !text::blank(front.last()),
    ensures
        removed(
            text::concatenated(front) + MANAGED_ENV_BEGIN@.push('\n') + text::concatenated(block)
                + MANAGED_ENV_END@.push('\n') + text::concatenated(back) + text::concatenated(gap),
        ) == text::concatenated(front) + text::concatenated(back),
{
    let lines = with_block(front, block, back + gap);
    let whole = text::concatenated(front) + MANAGED_ENV_BEGIN@.push('\n') + text::concatenated(
        block,
    ) + MANAGED_ENV_END@.push('\n') + text::concatenated(back) + text::concatenated(gap);
    let rest = back + gap;
    assert(text::whole_lines(rest)) by {
        assert forall|i: int| 0 <= i < rest.len() implies text::whole_line(#[trigger] rest[i]) by {
            if i < back.len() {
                assert(rest[i] == back[i]);
            } else {
                assert(rest[i] == gap[i - back.len()]);
            }
        }
    }
    assert(no_markers(rest)) by {
        assert forall|i: int| 0 <= i < rest.len() implies !is_marker(#[trigger] rest[i]) by {
            lemma_markers();
            if i < back.len() {
                assert(rest[i] == back[i]);
                assert(!reads_as_marker(back[i]));
            } else {
                assert(rest[i] == gap[i - back.len()]);
                text::lemma_trimmed_empty(rest[i]);
            }
        }
    }
    assert(text::lines_of(whole) == lines) by {
        lemma_lines_with_block(front, block, rest);
        text::lemma_concatenated_concat(back, gap);
        assert(whole =~= text::concatenated(front) + MANAGED_ENV_BEGIN@.push('\n')
            + text::concatenated(block) + MANAGED_ENV_END@.push('\n') + text::concatenated(rest));
    }
    lemma_outside_of_block(front, block, rest);
    assert(front + rest =~= front + back + gap);
    assert((front + back).len() > 0 ==> !text::blank((front + back).last())) by {
        if back.len() > 0 {
            assert((front + back).last() == back.last());
        } else {
            assert(front + back =~= front);
        }
    }
    lemma_trailing_blanks_go(front + back, gap);
    text::lemma_concatenated_concat(front, back);
}

/// The lines of a file with the markers round `block`.
spec fn with_block(
    front: Seq<Seq<char>>,
    block: Seq<Seq<char>>,
    rest: Seq<Seq<char>>,
) -> Seq<Seq<char>> {
    front + (seq![MANAGED_ENV_BEGIN@.push('\n')] + (block + (seq![MANAGED_ENV_END@.push('\n')]
        + rest)))
}

/// A file with the markers round `block` has just these lines.
proof fn lemma_lines_with_block(
    front: Seq<Seq<char>>,
    block: Seq<Seq<char>>,
    rest: Seq<Seq<char>>,
)
    requires
        text::whole_lines(front),
        text::whole_lines(block),
        text::whole_lines(rest),
    ensures
        text::lines_of(
            text::concatenated(front) + MANAGED_ENV_BEGIN@.push('\n') + text::concatenated(block)
                + MANAGED_ENV_END@.push('\n') + text::concatenated(rest),
        ) == with_block(front, block, rest),
{
    let all = with_block(front, block, rest);
    let whole = text::concatenated(front) + MANAGED_ENV_BEGIN@.push('\n') + text::concatenated(
        block,
    ) + MANAGED_ENV_END@.push('\n') + text::concatenated(rest);
    lemma_concatenated_with_block(front, block, rest);
    text::lemma_lines_of_concatenated(all, Seq::empty());
    assert(whole + Seq::<char>::empty() =~= whole);
    assert(all + text::lines_of(Seq::empty()) =~= all);
}

/// A file with the markers round `block` is made of whole lines, written one after the other.
proof fn lemma_concatenated_with_block(
    front: Seq<Seq<char>>,
    block: Seq<Seq<char>>,
    rest: Seq<Seq<char>>,
)
    requires
        text::whole_lines(front),
        text::whole_lines(block),
        text::whole_lines(rest),
    ensures
        text::whole_lines(with_block(front, block, rest)),
        text::concatenated(with_block(front, block, rest)) == text::concatenated(front)
            + MANAGED_ENV_BEGIN@.push('\n') + text::concatenated(block) + MANAGED_ENV_END@.push(
            '\n',
        ) + text::concatenated(rest),
{
    let begin = seq![MANAGED_ENV_BEGIN@.push('\n')];
    let end = seq![MANAGED_ENV_END@.push('\n')];
    let all = with_block(front, block, rest);
    let whole = text::concatenated(front) + MANAGED_ENV_BEGIN@.push('\n') + text::concatenated(
        block,
    ) + MANAGED_ENV_END@.push('\n') + text::concatenated(rest);
    assert(text::whole_lines(all)) by {
        lemma_markers();
        let f = front.len() as int;
        let b = block.len() as int;
        assert forall|i: int| 0 <= i < all.len() implies text::whole_line(#[trigger] all[i]) by {
            if i < f {
                assert(all[i] == front[i]);
            } else if i == f {
                assert(all[i] == begin[0]);
            } else if i < f + 1 + b {
                assert(all[i] == block[i - f - 1]);
            } else if i == f + 1 + b {
                assert(all[i] == end[0]);
            } else {
                assert(all[i] == rest[i - f - 2 - b]);
            }
        }
    }
    assert(text::concatenated(all) == whole) by {
        text::lemma_concatenated_concat(front, begin + (block + (end + rest)));
        text::lemma_concatenated_concat(begin, block + (end + rest));
        text::lemma_concatenated_concat(block, end + rest);
        text::lemma_concatenated_concat(end, rest);
        text::lemma_concatenated_one(MANAGED_ENV_BEGIN@.push('\n'));
        text::lemma_concatenated_one(MANAGED_ENV_END@.push('\n'));
        assert(text::concatenated(all) =~= whole);
    }
}

/// Outside the block lies what is in front of it and behind it.
proof fn lemma_outside_of_block(
    front: Seq<Seq<char>>,
    block: Seq<Seq<char>>,
    rest: Seq<Seq<char>>,
)
    requires
        forall|i: int| 0 <= i < front.len() ==> !reads_as_marker(#[trigger] front[i]),
        forall|i: int| 0 <= i < block.len() ==> !reads_as_marker(#[trigger] block[i]),
        no_markers(rest),
    ensures
        outside_lines(with_block(front, block, rest), false) == front + rest,
{
    let nothing = Seq::<Seq<char>>::empty();
    lemma_outside_around_block(front, block, rest);
    lemma_outside_after(rest, nothing);
    assert(rest + nothing =~= rest);
    assert(rest + outside_lines(nothing, false) =~= rest);
}

/// Outside the block lies what is in front of it, and of what is behind it what lies outside
/// further blocks.
proof fn lemma_outside_around_block(
    front: Seq<Seq<char>>,
    block: Seq<Seq<char>>,
    rest: Seq<Seq<char>>,
)
    requires
        forall|i: int| 0 <= i < front.len() ==> !reads_as_marker(#[trigger] front[i]),
        forall|i: int| 0 <= i < block.len() ==> !reads_as_marker(#[trigger] block[i]),
    ensures
        outside_lines(with_block(front, block, rest), false) == front + outside_lines(rest, false),
{
    lemma_markers();
    let begin = seq![MANAGED_ENV_BEGIN@.push('\n')];
    let end = seq![MANAGED_ENV_END@.push('\n')];
    let tail = end + rest;
    let opened = begin + (block + tail);
    assert(no_markers(front)) by {
        assert forall|i: int| 0 <= i < front.len() implies !is_marker(#[trigger] front[i]) by {
            assert(!reads_as_marker(front[i]));
        }
    }
    lemma_outside_after(front, opened);
    assert(opened[0] == begin[0]);
    assert(opened.drop_first() =~= block + tail);
    assert(tail[0] == end[0]);
    lemma_closed_block_is_inside(block, tail);
    assert(tail.drop_first() =~= rest);
    assert(!is_begin(tail[0])) by {
        assert(is_end(tail[0]));
    }
}

/// What is in an opened block that is closed lies inside it.
proof fn lemma_closed_block_is_inside(block: Seq<Seq<char>>, tail: Seq<Seq<char>>)
    requires
        forall|i: int| 0 <= i < block.len() ==> !reads_as_marker(#[trigger] block[i]),
        tail.len() > 0,
        is_end(tail[0]),
    ensures
        outside_lines(block + tail, true) == outside_lines(tail, true),
    decreases block.len(),
{
    if block.len() == 0 {
        assert(block + tail =~= tail);
    } else {
        assert(!reads_as_marker(block[0]));
        let rest = block.drop_first();
        assert((block + tail).drop_first() =~= rest + tail);
        assert((rest + tail)[rest.len() as int] == tail[0]);
        assert(has_end(rest + tail));
        assert forall|i: int| 0 <= i < rest.len() implies !reads_as_marker(#[trigger] rest[i]) by {
            assert(rest[i] == block[i + 1]);
        }
        lemma_closed_block_is_inside(rest, tail);
    }
}

/// Blank lines at the end go, all of them and no others.
proof fn lemma_trailing_blanks_go(lines: Seq<Seq<char>>, gap: Seq<Seq<char>>)
    requires
        lines.len() > 0 ==> !text::blank(lines.last()),
        forall|i: int| 0 <= i < gap.len() ==> text::blank(#[trigger] gap[i]),
    ensures
        without_trailing_blanks(lines + gap) == lines,
    decreases gap.len(),
{
    if gap.len() == 0 {
        assert(lines + gap =~= lines);
    } else {
        assert(text::blank(gap[gap.len() - 1]));
        assert((lines + gap).drop_last() =~= lines + gap.drop_last());
        assert forall|i: int| 0 <= i < gap.drop_last().len() implies text::blank(
            #[trigger] gap.drop_last()[i],
        ) by {
            assert(gap.drop_last()[i] == gap[i]);
        }
        lemma_trailing_blanks_go(lines, gap.drop_last());
    }
}

/// Writing the block puts it behind what removing leaves: alone where that is nothing, and
/// behind one empty line where it is something.
pub proof fn law_block_is_written_behind_what_is_left(existing: Seq<char>, proxy_port: u16)
    ensures
        removed(existing).len() == 0 ==> upserted(existing, proxy_port) == block_of(proxy_port),
        removed(existing).len() > 0 ==> upserted(existing, proxy_port) == removed(existing)
            + seq!['\n'] + block_of(proxy_port),
{
    lemma_user_lines(existing);
    let user = user_lines(existing);
    if user.len() > 0 {
        lemma_lines_not_blank(user);
        assert(removed(existing).len() > 0);
    }
}

/// The gateway and the local machine are reached without the proxy, by these names.
pub proof fn law_hosts_without_proxy_are_these()
    ensures
        no_proxy_hosts() == "10.20.30.61,127.0.0.1,localhost"@,
{
    reveal_strlit("10.20.30.61");
    reveal_strlit(",127.0.0.1,localhost");
    reveal_strlit("10.20.30.61,127.0.0.1,localhost");
    assert(no_proxy_hosts() =~= "10.20.30.61,127.0.0.1,localhost"@);
}

/// A path that a name was put behind begins with the base and ends in the name, and between
/// them is nothing or one separator.
pub proof fn law_name_stands_behind_the_base(base: Seq<char>, name: Seq<char>, path: Seq<char>)
    requires
        adjoined(base, name, path),
    ensures
        base.len() + name.len() <= path.len() <= base.len() + name.len() + 1,
        path.take(base.len() as int) == base,
        path.skip(path.len() - name.len()) == name,
        path.len() > base.len() + name.len() ==> path[base.len() as int] == '/'
            || path[base.len() as int] == '\\',
{
    assert(path.take(base.len() as int) =~= base);
    assert(path.skip(path.len() - name.len()) =~= name);
}

/// A path whose last component is a name ends in it, behind nothing, a separator or a drive.
pub proof fn law_file_is_named_last(name: Seq<char>, path: Seq<char>)
    requires
        names_file(name, path),
    ensures
        name.len() <= path.len(),
        path.skip(path.len() - name.len()) == name,
        path.len() > name.len() ==> {
            let c = path[path.len() - name.len() - 1];
            c == '/' || c == '\\' || c == ':'
        },
{
    assert(path.skip(path.len() - name.len()) =~= name);
}

/// A marker without its partner goes alone: what is in front of it and behind it stays.
pub proof fn law_marker_without_partner_goes_alone(
    front: Seq<Seq<char>>,
    opens: bool,
    back: Seq<Seq<char>>,
)
    requires
        text::whole_lines(front),
        text::whole_lines(back),
        forall|i: int| 0 <= i < front.len() ==> !reads_as_marker(#[trigger] front[i]),
        forall|i: int| 0 <= i < back.len() ==> !reads_as_marker(#[trigger] back[i]),
        back.len() > 0 ==> !text::blank(back.last()),
        back.len() == 0 && front.len() > 0 ==> !text::blank(front.last()),
    ensures
        removed(
            text::concatenated(front) + (if opens {
                "# >>> codex-plus-plus managed gateway (自动生成，请勿手改) >>>"@
            } else {
                "# <<< codex-plus-plus managed gateway <<<"@
            }).push('\n') + text::concatenated(back),
        ) == text::concatenated(front) + text::concatenated(back),
{
    lemma_markers();
    let marker = (if opens {
        MANAGED_ENV_BEGIN@
    } else {
        MANAGED_ENV_END@
    }).push('\n');
    let marked = seq![marker] + back;
    let all = front + marked;
    let whole = text::concatenated(front) + marker + text::concatenated(back);
    assert(text::whole_lines(all)) by {
        assert forall|i: int| 0 <= i < all.len() implies text::whole_line(#[trigger] all[i]) by {
            if i < front.len() {
                assert(all[i] == front[i]);
            } else if i > front.len() {
                assert(all[i] == back[i - front.len() - 1]);
            }
        }
    }
    assert(text::lines_of(whole) == all) by {
        text::lemma_concatenated_concat(front, marked);
        text::lemma_concatenated_concat(seq![marker], back);
        text::lemma_concatenated_one(marker);
        assert(text::concatenated(all) + Seq::<char>::empty() =~= whole);
        text::lemma_lines_of_concatenated(all, Seq::empty());
        assert(all + text::lines_of(Seq::empty()) =~= all);
    }
    assert(outside_lines(all, false) == front + back) by {
        assert forall|i: int| 0 <= i < front.len() implies !is_marker(#[trigger] front[i]) by {
            assert(!reads_as_marker(front[i]));
        }
        lemma_outside_after(front, marked);
        assert(marked[0] == marker);
        assert(marked.drop_first() =~= back);
        lemma_unmarked_lines_stay(back, opens);
    }
    let nothing = Seq::<Seq<char>>::empty();
    assert(front + back + nothing =~= front + back);
    assert((front + back).len() > 0 ==> !text::blank((front + back).last())) by {
        if back.len() > 0 {
            assert((front + back).last() == back.last());
        } else {
            assert(front + back =~= front);
        }
    }
    lemma_trailing_blanks_go(front + back, nothing);
    text::lemma_concatenated_concat(front, back);
}

/// Lines without a marker stay, behind a marker that opens a block too.
proof fn lemma_unmarked_lines_stay(lines: Seq<Seq<char>>, inside: bool)
    requires
        forall|i: int| 0 <= i < lines.len() ==> !reads_as_marker(#[trigger] lines[i]),
    ensures
        outside_lines(lines, inside) == lines,
    decreases lines.len(),
{
    if lines.len() > 0 {
        let rest = lines.drop_first();
        assert(!reads_as_marker(lines[0]));
        assert forall|i: int| 0 <= i < rest.len() implies !reads_as_marker(#[trigger] rest[i]) by {
            assert(rest[i] == lines[i + 1]);
        }
        assert(!has_end(rest)) by {
            assert forall|i: int| 0 <= i < rest.len() implies !is_end(#[trigger] rest[i]) by {
                assert(!reads_as_marker(rest[i]));
            }
        }
        lemma_unmarked_lines_stay(rest, inside);
        assert(seq![lines[0]] + rest =~= lines);
    }
}

/// Blocks go one by one: a block that is closed goes, whatever is behind it, and what is
/// behind it is treated as a file of its own.
pub proof fn law_blocks_go_one_by_one(
    front: Seq<Seq<char>>,
    block: Seq<Seq<char>>,
    rest: Seq<char>,
)
    requires
        text::whole_lines(front),
        text::whole_lines(block),
        forall|i: int| 0 <= i < front.len() ==> !reads_as_marker(#[trigger] front[i]),
        forall|i: int| 0 <= i < block.len() ==> !reads_as_marker(#[trigger] block[i]),
        front.len() > 0 ==> !text::blank(front.last()),
    ensures
        removed(
            text::concatenated(front)
                + "# >>> codex-plus-plus managed gateway (自动生成，请勿手改) >>>"@.push('\n')
                + text::concatenated(block)
                + "# <<< codex-plus-plus managed gateway <<<"@.push('\n') + rest,
        ) == text::concatenated(front) + removed(rest),
{
    let nothing = Seq::<Seq<char>>::empty();
    let head = with_block(front, block, nothing);
    let lines = text::lines_of(rest);
    let whole = text::concatenated(front) + MANAGED_ENV_BEGIN@.push('\n') + text::concatenated(
        block,
    ) + MANAGED_ENV_END@.push('\n') + rest;
    assert(text::lines_of(whole) == head + lines) by {
        lemma_concatenated_with_block(front, block, nothing);
        text::lemma_lines_of_concatenated(head, rest);
        assert(text::concatenated(head) + rest =~= whole);
    }
    assert(head + lines =~= with_block(front, block, lines));
    lemma_outside_around_block(front, block, lines);
    lemma_trailing_blanks_behind(front, outside_lines(lines, false));
    text::lemma_concatenated_concat(front, user_lines(rest));
}

/// Blank lines at the end go from what is behind lines that do not end in one.
proof fn lemma_trailing_blanks_behind(front: Seq<Seq<char>>, lines: Seq<Seq<char>>)
    requires
        front.len() > 0 ==> !text::blank(front.last()),
    ensures
        without_trailing_blanks(front + lines) == front + without_trailing_blanks(lines),
    decreases lines.len(),
{
    if lines.len() == 0 {
        assert(front + lines =~= front);
        assert(front + without_trailing_blanks(lines) =~= front);
    } else {
        assert((front + lines).last() == lines.last());
        assert((front + lines).drop_last() =~= front + lines.drop_last());
        lemma_trailing_blanks_behind(front, lines.drop_last());
    }
}

} // verus!
