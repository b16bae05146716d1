use vstd::prelude::*;
use crate::markdown_renderer::chars_of;

verus! {

/// The banner of the loading screen.
pub const LOAD_TEMPLATE: [&'static str; 10] = [
    "▄████▄   ▄▄▄       ███▄ ▄███▓ ▄▄▄▄    █    ██  ▄████▄   ██░ ██  ▄▄▄           ▓█████▄ ▓█████  ██▒   █▓",
    "▒██▀ ▀█  ▒████▄    ▓██▒▀█▀ ██▒▓█████▄  ██  ▓██▒▒██▀ ▀█  ▓██░ ██▒▒████▄         ▒██▀ ██▌▓█   ▀ ▓██░   █▒",
    "▒▓█    ▄ ▒██  ▀█▄  ▓██    ▓██░▒██▒ ▄██▓██  ▒██░▒▓█    ▄ ▒██▀▀██░▒██  ▀█▄       ░██   █▌▒███    ▓██  █▒░",
    "▒▓▓▄ ▄██▒░██▄▄▄▄██ ▒██    ▒██ ▒██░█▀  ▓▓█  ░██░▒▓▓▄ ▄██▒░▓█ ░██ ░██▄▄▄▄██      ░▓█▄   ▌▒▓█  ▄   ▒██ █░░",
    "▒ ▓███▀ ░ ▓█   ▓██▒▒██▒   ░██▒░▓█  ▀█▓▒▒█████▓ ▒ ▓███▀ ░░▓█▒░██▓ ▓█   ▓██▒ ██▓ ░▒████▓ ░▒████▒   ▒▀█░  ",
    "░ ░▒ ▒  ░ ▒▒   ▓▒█░░ ▒░   ░  ░░▒▓███▀▒░▒▓▒ ▒ ▒ ░ ░▒ ▒  ░ ▒ ░░▒░▒ ▒▒   ▓▒█░ ▒▓▒  ▒▒▓  ▒ ░░ ▒░ ░   ░ ▐░  ",
    "░  ▒     ▒   ▒▒ ░░  ░      ░▒░▒   ░ ░░▒░ ░ ░   ░  ▒    ▒ ░▒░ ░  ▒   ▒▒ ░ ░▒   ░ ▒  ▒  ░ ░  ░   ░ ░░  ",
    "░          ░   ▒   ░      ░    ░    ░  ░░░ ░ ░ ░         ░  ░░ ░  ░   ▒    ░    ░ ░  ░    ░        ░░  ",
    "░ ░            ░  ░       ░    ░         ░     ░ ░       ░  ░  ░      ░  ░  ░     ░       ░  ░      ░  ",
    "░                                   ░          ░                            ░   ░                  ░   ",
];

/// The main menu; each entry is found on screen by its number.
pub const MAIN_TEMPLATE: [&'static str; 11] = [
    "Welcome to CAMBUCHA.DEV (TM) TermLink",
    "Select One",
    "|==========================================|",
    "|                                          |",
    "|                                          |",
    "|               1.Projects                 |",
    "|               2.Resume                   |",
    "|               3.Contact                  |",
    "|                                          |",
    "|                                          |",
    "|==========================================|",
];

/// The frames of the loading spinner.
pub const BALLOON_SPINNER_CHARS: [char; 7] = ['.', 'o', 'O', '°', 'O', 'o', '.'];

/// A rectangle of grid cells: columns `[x, x + w)`, rows `[y, y + h)`.
#[derive(Clone, Copy, Debug, PartialEq, Eq, Structural)]
pub struct CellRect {
    pub x: usize,
    pub y: usize,
    pub w: usize,
    pub h: usize,
}

/// The text lines of a template.
pub open spec fn template_view(t: Seq<&str>) -> Seq<Seq<char>> {
    t.map_values(|s: &str| s@)
}

pub open spec fn digit_char(d: int) -> char {
    if d == 0 { '0' } else if d == 1 { '1' } else if d == 2 { '2' } else if d == 3 { '3' } else if d == 4 { '4' }
    else if d == 5 { '5' } else if d == 6 { '6' } else if d == 7 { '7' } else if d == 8 { '8' } else { '9' }
}

/// The decimal digits of `n`, most significant first.
pub open spec fn decimal(n: nat) -> Seq<char>
    decreases n,
{
    if n < 10 {
        seq![digit_char(n as int)]
    } else {
        decimal(n / 10).push(digit_char((n % 10) as int))
    }
}

/// The first position from `i` on where `needle` occurs in `hay`.
pub open spec fn find_from(hay: Seq<char>, needle: Seq<char>, i: int) -> Option<int>
    decreases hay.len() + 1 - i,
{
    if i < 0 || i + needle.len() > hay.len() {
        None
    } else if hay.subrange(i, i + needle.len()) == needle {
        Some(i)
    } else {
        find_from(hay, needle, i + 1)
    }
}

/// The first line, from line `l` on, that holds `needle`, with the position in it.
pub open spec fn find_line_from(lines: Seq<Seq<char>>, needle: Seq<char>, l: int) -> Option<(int, int)>
    decreases lines.len() - l,
{
    if l < 0 || l >= lines.len() {
        None
    } else {
        match find_from(lines[l], needle, 0) {
            Some(x) => Some((l, x)),
            None => find_line_from(lines, needle, l + 1),
        }
    }
}

/// The box over the menu entry numbered `index`: from its number up to the
/// next space on the same line.
pub open spec fn highlight_box_spec(lines: Seq<Seq<char>>, index: nat) -> Option<CellRect> {
    match find_line_from(lines, decimal(index), 0) {
        Some((l, x)) => match find_from(lines[l].skip(x), seq![' '], 0) {
            Some(count) => Some(CellRect { x: x as usize, y: l as usize, w: count as usize, h: 1 }),
            None => None,
        },
        None => None,
    }
}

fn digit_of(d: usize) -> (c: char)
    requires
        d < 10,
    ensures
        c == digit_char(d as int),
{
    match d {
        0 => '0',
        1 => '1',
        2 => '2',
        3 => '3',
        4 => '4',
        5 => '5',
        6 => '6',
        7 => '7',
        8 => '8',
        _ => '9',
    }
}

/// The decimal digits of `n`.
pub fn decimal_chars(n: usize) -> (r: Vec<char>)
    ensures
        r@ == decimal(n as nat),
    decreases n,
{
    if n < 10 {
        let mut r: Vec<char> = Vec::new();
        r.push(digit_of(n));
        proof {
            assert(r@ =~= seq![digit_char(n as int)]);
        }
        r
    } else {
        let mut r = decimal_chars(n / 10);
        r.push(digit_of(n % 10));
        r
    }
}

/// The first position where `needle` occurs in `hay`.
pub fn find_chars(hay: &Vec<char>, needle: &Vec<char>) -> (r: Option<usize>)
    ensures
        r matches Some(i) ==> find_from(hay@, needle@, 0) == Some(i as int) && i + needle@.len() <= hay@.len(),
        r is None ==> find_from(hay@, needle@, 0) is None,
{
    let n = hay.len();
    let m = needle.len();
    if m > n {
        return None;
    }
    if m == 0 {
        proof {
            assert(hay@.subrange(0, 0) =~= needle@);
        }
        return Some(0);
    }
    let last = n - m + 1;
    let mut i: usize = 0;
    while i < last
        invariant
            n == hay@.len(),
            m == needle@.len(),
            1 <= m <= n,
            last == n - m + 1,
            i <= last,
            find_from(hay@, needle@, i as int) == find_from(hay@, needle@, 0),
        decreases last - i,
    {
        let mut j: usize = 0;
        let mut same = true;
        proof {
            assert(hay@.subrange(i as int, i as int) =~= needle@.take(0));
        }
        while j < m && same
            invariant
                j <= m,
                i + m <= n,
                n == hay@.len(),
                m == needle@.len(),
                same == (hay@.subrange(i as int, i + j) == needle@.take(j as int)),
            decreases m - j,
        {
            let ghost prev = hay@.subrange(i as int, i + j);
            if hay[i + j] != needle[j] {
                same = false;
                proof {
                    assert(hay@.subrange(i as int, i + j + 1)[j as int] != needle@.take(j + 1)[j as int]);
                }
            } else {
                proof {
                    assert(hay@.subrange(i as int, i + j + 1) =~= prev.push(hay@[i + j]));
                    assert(needle@.take(j + 1) =~= needle@.take(j as int).push(needle@[j as int]));
                }
            }
            j = j + 1;
        }
        proof {
            if same {
                assert(j == m);
                assert(needle@.take(m as int) =~= needle@);
            } else {
                assert(hay@.subrange(i as int, i + m) != needle@) by {
                    if hay@.subrange(i as int, i + m) == needle@ {
                        assert(hay@.subrange(i as int, i + j) =~= needle@.take(j as int));
                    }
                }
            }
        }
        if same {
            return Some(i);
        }
        i = i + 1;
    }
    None
}

/// The box over the main-menu entry numbered `index`, if the menu has one.
pub fn generate_highlight_box(index: usize) -> (r: Option<CellRect>)
    ensures
        r == highlight_box_spec(template_view(MAIN_TEMPLATE@), index as nat),
{
    let ghost lines = template_view(MAIN_TEMPLATE@);
    let label = decimal_chars(index);
    let mut space: Vec<char> = Vec::new();
    space.push(' ');
    proof {
        assert(space@ =~= seq![' ']);
    }
    let template = MAIN_TEMPLATE;
    let mut l: usize = 0;
    while l < template.len()
        invariant
            l <= template@.len(),
            template@ == MAIN_TEMPLATE@,
            lines == template_view(MAIN_TEMPLATE@),
            label@ == decimal(index as nat),
            space@ == seq![' '],
            find_line_from(lines, label@, l as int) == find_line_from(lines, label@, 0),
        decreases template@.len() - l,
    {
        let line = chars_of(template[l]);
        assert(line@ == lines[l as int]);
        match find_chars(&line, &label) {
            Some(x) => {
                let rest = tail_from(&line, x);
                let found = find_chars(&rest, &space);
                return match found {
                    Some(count) => Some(CellRect { x, y: l, w: count, h: 1 }),
                    None => None,
                };
            },
            None => {},
        }
        l = l + 1;
    }
    None
}

/// `v[start..]`.
fn tail_from(v: &Vec<char>, start: usize) -> (r: Vec<char>)
    requires
        start <= v@.len(),
    ensures
        r@ == v@.skip(start as int),
{
    let mut r: Vec<char> = Vec::new();
    let mut i = start;
    while i < v.len()
        invariant
            start <= i <= v@.len(),
            r@ == v@.subrange(start as int, i as int),
        decreases v@.len() - i,
    {
        r.push(v[i]);
        proof {
            assert(r@ =~= v@.subrange(start as int, i + 1));
        }
        i = i + 1;
    }
    proof {
        assert(r@ =~= v@.skip(start as int));
    }
    r
}

} // verus!
