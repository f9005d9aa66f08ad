use vstd::prelude::*;

verus! {

/// What a single cell of the generated field holds, fixed at generation
/// time and never mutated afterwards.
#[derive(Clone, Copy, Debug, PartialEq, Eq, Structural)]
pub enum Tile {
    /// The cell detonates on reveal.
    Bomb,
    /// The cell is safe but borders `count` bombs (diagonals included).
    BombNeighbor(u8),
    /// The cell is safe and borders no bomb at all.
    Empty,
}

/// `s` with every ANSI escape sequence removed: a scan that drops each
/// stretch from an escape character through the next `m`, and keeps every
/// other character.
pub open spec fn strip_ansi_from(s: Seq<char>, in_escape: bool) -> Seq<char>
    decreases s.len(),
{
    if s.len() == 0 {
        Seq::empty()
    } else if in_escape {
        if s[0] == 'm' {
            strip_ansi_from(s.drop_first(), false)
        } else {
            strip_ansi_from(s.drop_first(), true)
        }
    } else if s[0] == '\x1B' {
        strip_ansi_from(s.drop_first(), true)
    } else {
        seq![s[0]] + strip_ansi_from(s.drop_first(), false)
    }
}

/// `s` with every ANSI escape sequence removed.
pub open spec fn strip_ansi(s: Seq<char>) -> Seq<char> {
    strip_ansi_from(s, false)
}

/// A sequence without the escape character passes through the scan
/// unchanged.
pub proof fn lemma_strip_ansi_plain(s: Seq<char>)
    requires
        escape_free(s),
    ensures
        strip_ansi(s) == s,
    decreases s.len(),
{
    if s.len() > 0 {
        assert(escape_free(s.drop_first())) by {
            assert(forall|i: int|
                0 <= i < s.drop_first().len() ==> #[trigger] s.drop_first()[i] == s[i + 1]);
        }
        lemma_strip_ansi_plain(s.drop_first());
        assert(seq![s[0]] + s.drop_first() =~= s);
    }
}

/// True when no character of `s` is the ANSI escape character.  Text fed to
/// the terminal colorizer must satisfy this so that it is carried through
/// verbatim.
pub open spec fn escape_free(s: Seq<char>) -> bool {
    forall|i: int| 0 <= i < s.len() ==> s[i] != '\x1B'
}

/// Relies on colored's `Colorize::bright_red` and the `Display` impl of
/// `ColoredString`: the output is either the input itself (colors
/// disabled) or the input wrapped in ANSI style sequences (`ESC [ codes m`
/// before, the reset sequence after), so stripping ANSI sequences from the
/// output gives back exactly the escape-free input.
#[verifier::external_body]
fn paint_bright_red(s: &str) -> (r: String)
    requires
        escape_free(s@),
    ensures
        strip_ansi(r@) == s@,
{
    format!("{}", colored::Colorize::bright_red(s))
}

/// Relies on colored's `Colorize::cyan`, as `paint_bright_red` does.
#[verifier::external_body]
fn paint_cyan(s: &str) -> (r: String)
    requires
        escape_free(s@),
    ensures
        strip_ansi(r@) == s@,
{
    format!("{}", colored::Colorize::cyan(s))
}

/// Relies on colored's `Colorize::green`, as `paint_bright_red` does.
#[verifier::external_body]
fn paint_green(s: &str) -> (r: String)
    requires
        escape_free(s@),
    ensures
        strip_ansi(r@) == s@,
{
    format!("{}", colored::Colorize::green(s))
}

/// Relies on colored's `Colorize::yellow`, as `paint_bright_red` does.
#[verifier::external_body]
fn paint_yellow(s: &str) -> (r: String)
    requires
        escape_free(s@),
    ensures
        strip_ansi(r@) == s@,
{
    format!("{}", colored::Colorize::yellow(s))
}

/// Relies on colored's `Colorize::red`, as `paint_bright_red` does.
#[verifier::external_body]
fn paint_red(s: &str) -> (r: String)
    requires
        escape_free(s@),
    ensures
        strip_ansi(r@) == s@,
{
    format!("{}", colored::Colorize::red(s))
}

/// Relies on colored's `Colorize::normal`: it attaches the cleared style,
/// for which `ColoredString`'s `Display` writes the input exactly.
#[verifier::external_body]
fn paint_normal(s: &str) -> (r: String)
    ensures
        r@ == s@,
{
    format!("{}", colored::Colorize::normal(s))
}

impl Tile {
    /// A `BombNeighbor` count is produced by counting up to eight bomb
    /// neighbors of a safe cell, so it is always between 1 and 8: a cell
    /// with count zero is `Empty` instead.
    pub open spec fn valid(self) -> bool {
        match self {
            Tile::BombNeighbor(v) => 1 <= v <= 8,
            _ => true,
        }
    }

    /// The bare character that stands for this tile on a console: `*` for a
    /// bomb, the count's digit for a bomb neighbor, a space for an empty
    /// cell.
    pub open spec fn glyph(self) -> Seq<char> {
        match self {
            Tile::Bomb => "*"@,
            Tile::BombNeighbor(v) => if v == 1 {
                "1"@
            } else if v == 2 {
                "2"@
            } else if v == 3 {
                "3"@
            } else if v == 4 {
                "4"@
            } else if v == 5 {
                "5"@
            } else if v == 6 {
                "6"@
            } else if v == 7 {
                "7"@
            } else {
                "8"@
            },
            Tile::Empty => " "@,
        }
    }

    /// Is the tile a bomb?
    pub fn is_bomb(&self) -> (r: bool)
        ensures
            r == (*self is Bomb),
    {
        matches!(self, Self::Bomb)
    }

    /// The tile's one-character console form, colorized by bomb count as
    /// the terminal allows.  Whatever styling the terminal settings yield,
    /// the result is the tile's glyph and nothing else once its ANSI
    /// sequences are stripped.
    pub fn console_output(&self) -> (r: String)
        requires
            self.valid(),
        ensures
            strip_ansi(r@) == self.glyph(),
    {
        proof {
            reveal_strlit("*");
            reveal_strlit("1");
            reveal_strlit("2");
            reveal_strlit("3");
            reveal_strlit("4");
            reveal_strlit("5");
            reveal_strlit("6");
            reveal_strlit("7");
            reveal_strlit("8");
            reveal_strlit(" ");
        }
        match self {
            Self::Bomb => {
                let r = paint_bright_red("*");
                proof {
                    assert(strip_ansi(r@) == self.glyph());
                }
                r
            },
            Self::BombNeighbor(v) => {
                let r = match *v {
                    1 => paint_cyan("1"),
                    2 => paint_green("2"),
                    3 => paint_yellow("3"),
                    4 => paint_red("4"),
                    5 => paint_red("5"),
                    6 => paint_red("6"),
                    7 => paint_red("7"),
                    _ => paint_red("8"),
                };
                proof {
                    assert(strip_ansi(r@) == self.glyph());
                }
                r
            },
            Self::Empty => {
                let r = paint_normal(" ");
                proof {
                    lemma_strip_ansi_plain(" "@);
                    assert(strip_ansi(r@) == self.glyph());
                }
                r
            },
        }
    }
}

} // verus!
