//! The start-up banner.
use vstd::prelude::*;

verus! {

/// The lines of the banner, each starting with a tab.
pub open spec fn banner() -> Seq<Seq<char>> {
    seq![
        "\t     █████          ██████████   ██████   █████  █████████ "@,
        "\t    ░░███          ░░███░░░░███ ░░██████ ░░███  ███░░░░░███"@,
        "\t  ███████   ██████  ░███   ░░███ ░███░███ ░███ ░███    ░░░ "@,
        "\t ███░░███  ███░░███ ░███    ░███ ░███░░███░███ ░░█████████ "@,
        "\t░███ ░███ ░███████  ░███    ░███ ░███ ░░██████  ░░░░░░░░███"@,
        "\t░███ ░███ ░███░░░   ░███    ███  ░███  ░░█████  ███    ░███"@,
        "\t░░████████░░██████  ██████████   █████  ░░█████░░█████████ "@,
        "\t ░░░░░░░░  ░░░░░░  ░░░░░░░░░░   ░░░░░    ░░░░░  ░░░░░░░░░  "@
    ]
}

/// The lines of the start-up banner, in order.
pub fn ascii_art() -> (lines: Vec<String>)
    ensures
        lines@.map_values(|l: String| l@) == banner(),
{
    let mut lines: Vec<String> = Vec::new();
    lines.push("\t     █████          ██████████   ██████   █████  █████████ ".to_owned());
    lines.push("\t    ░░███          ░░███░░░░███ ░░██████ ░░███  ███░░░░░███".to_owned());
    lines.push("\t  ███████   ██████  ░███   ░░███ ░███░███ ░███ ░███    ░░░ ".to_owned());
    lines.push("\t ███░░███  ███░░███ ░███    ░███ ░███░░███░███ ░░█████████ ".to_owned());
    lines.push("\t░███ ░███ ░███████  ░███    ░███ ░███ ░░██████  ░░░░░░░░███".to_owned());
    lines.push("\t░███ ░███ ░███░░░   ░███    ███  ░███  ░░█████  ███    ░███".to_owned());
    lines.push("\t░░████████░░██████  ██████████   █████  ░░█████░░█████████ ".to_owned());
    lines.push("\t ░░░░░░░░  ░░░░░░  ░░░░░░░░░░   ░░░░░    ░░░░░  ░░░░░░░░░  ".to_owned());
    proof {
        assert(lines@.map_values(|l: String| l@) =~= banner());
    }
    lines
}

} // verus!
