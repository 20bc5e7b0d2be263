use grab::flag::Flags;
use grab::matcher::Matcher;
use grab::process::count_matches;
use grab::process::print_invert_matches;
use grab::process::print_matches;
use grab::process::print_with_after_context;
use grab::process::print_with_before_context;
use grab::process::print_with_context;
use grab::utils::compile_regex;

fn pessoa_lines() -> Vec<String> {
    let text = "Like someone on a hill who tries to make out the people in the
valley, I look down at myself from on high, and I’m a hazy and
confused landscape, along with everything else.

In these times when an abyss opens up in my soul, the tiniest detail
distresses me like a letter of farewell. I feel as if I’m always on the
verge of waking up. I’m oppressed by the very self that encases me,
asphyxiated by conclusions, and I’d gladly scream if my voice could
reach somewhere. But there’s this heavy slumber that moves from one
group of my sensations to another, like drifting clouds that make the
half-shaded grass of sprawling fields turn various colours of sun and
green.

I’m like someone searching at random, not knowing what object he’s
looking for nor where it was hidden. We play hide-and-seek with no
one. There’s a transcendent trick in all of this, a fluid divinity we can
only hear.

Yes, I reread these pages that represent worthless hours, brief
illusions or moments of calm, large hopes channelled into the
landscape, sorrows like closed rooms, certain voices, a huge weariness,
the unwritten gospel.

We all have our vanity, and that vanity is our way of forgetting that
there are other people with a soul like our own. My vanity consists of";
    text.lines().map(|l| l.to_string()).collect()
}

fn matcher(pattern: &str) -> Matcher {
    match compile_regex(pattern, false) {
        Ok(m) => m,
        Err(_) => panic!("pattern should compile"),
    }
}

fn flags_with(line_number: bool, colorize: bool, invert_match: bool) -> Flags {
    Flags {
        count: false,
        line_number,
        colorize,
        ignore_case: false,
        invert_match,
        after_context: false,
        before_context: false,
        context: false,
    }
}

fn rendered(rows: &[String]) -> String {
    let mut s = String::new();
    for r in rows {
        s.push_str(r);
        s.push('\n');
    }
    s
}

#[test]
fn number_of_matches() {
    let lines = pessoa_lines();
    let m = matcher("like");
    let number_of_matches = count_matches(&m, &lines);
    assert_eq!(number_of_matches, 5);
}

#[test]
fn print_matches_with_line_number() {
    let flags = flags_with(true, false, false);
    let lines = pessoa_lines();
    let m = matcher("distress");
    let out = print_matches(&m, &lines, &flags);
    assert_eq!(
        rendered(&out),
        "\u{1b}[32m6\u{1b}[0m: distresses me like a letter of farewell. I feel as if I’m always on the\n"
    );
}

#[test]
fn print_matches_without_line_number() {
    let flags = flags_with(false, false, false);
    let lines = pessoa_lines();
    let m = matcher("distress");
    let out = print_matches(&m, &lines, &flags);
    assert_eq!(
        rendered(&out),
        "distresses me like a letter of farewell. I feel as if I’m always on the\n"
    );
}

#[test]
fn after_context_without_line_number() {
    let flags = flags_with(false, false, false);
    let lines = pessoa_lines();
    let m = matcher("distress");
    let out = print_with_after_context(&m, &lines, &flags, 3, "####");
    assert_eq!(
        rendered(&out),
        "distresses me like a letter of farewell. I feel as if I’m always on the
verge of waking up. I’m oppressed by the very self that encases me,
asphyxiated by conclusions, and I’d gladly scream if my voice could
reach somewhere. But there’s this heavy slumber that moves from one\n"
    );
}

#[test]
fn after_context_with_line_number() {
    let flags = flags_with(true, false, false);
    let lines = pessoa_lines();
    let m = matcher("distress");
    let out = print_with_after_context(&m, &lines, &flags, 3, "####");
    assert_eq!(
        rendered(&out),
        "\u{1b}[32m6\u{1b}[0m: distresses me like a letter of farewell. I feel as if I’m always on the
\u{1b}[32m7\u{1b}[0m: verge of waking up. I’m oppressed by the very self that encases me,
\u{1b}[32m8\u{1b}[0m: asphyxiated by conclusions, and I’d gladly scream if my voice could
\u{1b}[32m9\u{1b}[0m: reach somewhere. But there’s this heavy slumber that moves from one\n"
    );
}

#[test]
fn after_context_with_for_ten_char_words_and_pattern_color() {
    let flags = flags_with(false, true, false);
    let lines = pessoa_lines();
    let m = matcher(r"\b\w{10}\b");
    let out = print_with_after_context(&m, &lines, &flags, 2, "####");
    assert_eq!(
        rendered(&out),
        "confused landscape, along with \u{1b}[31meverything\u{1b}[0m else.

In these times when an abyss opens up in my soul, the tiniest detail
\u{1b}[34m####\u{1b}[0m
\u{1b}[31mdistresses\u{1b}[0m me like a letter of farewell. I feel as if I’m always on the
verge of waking up. I’m oppressed by the very self that encases me,
asphyxiated by conclusions, and I’d gladly scream if my voice could
\u{1b}[34m####\u{1b}[0m
group of my \u{1b}[31msensations\u{1b}[0m to another, like drifting clouds that make the
half-shaded grass of sprawling fields turn various colours of sun and
green.
\u{1b}[34m####\u{1b}[0m
illusions or moments of calm, large hopes \u{1b}[31mchannelled\u{1b}[0m into the
landscape, sorrows like closed rooms, certain voices, a huge weariness,
the unwritten gospel.
\u{1b}[34m####\u{1b}[0m
We all have our vanity, and that vanity is our way of \u{1b}[31mforgetting\u{1b}[0m that
there are other people with a soul like our own. My vanity consists of\n"
    );
}

#[test]
fn before_context_without_line_number() {
    let flags = flags_with(false, true, false);
    let lines = pessoa_lines();
    let m = matcher("distress");
    let out = print_with_before_context(&m, &lines, &flags, 3, "####");
    assert_eq!(
        rendered(&out),
        "confused landscape, along with everything else.

In these times when an abyss opens up in my soul, the tiniest detail
\u{1b}[31mdistress\u{1b}[0mes me like a letter of farewell. I feel as if I’m always on the\n"
    );
}

#[test]
fn before_context_with_line_number() {
    let flags = flags_with(true, true, false);
    let lines = pessoa_lines();
    let m = matcher("distress");
    let out = print_with_before_context(&m, &lines, &flags, 3, "####");
    assert_eq!(
        rendered(&out),
        "\u{1b}[32m3\u{1b}[0m: confused landscape, along with everything else.
\u{1b}[32m4\u{1b}[0m: 
\u{1b}[32m5\u{1b}[0m: In these times when an abyss opens up in my soul, the tiniest detail
\u{1b}[32m6\u{1b}[0m: \u{1b}[31mdistress\u{1b}[0mes me like a letter of farewell. I feel as if I’m always on the\n"
    );
}

#[test]
fn context_with_line_number() {
    let flags = flags_with(true, true, false);
    let lines = pessoa_lines();
    let m = matcher("like");
    let out = print_with_context(&m, &lines, &flags, 2, "####");
    assert_eq!(
        rendered(&out),
        "\u{1b}[32m4\u{1b}[0m: 
\u{1b}[32m5\u{1b}[0m: In these times when an abyss opens up in my soul, the tiniest detail
\u{1b}[32m6\u{1b}[0m: distresses me \u{1b}[31mlike\u{1b}[0m a letter of farewell. I feel as if I’m always on the
\u{1b}[32m7\u{1b}[0m: verge of waking up. I’m oppressed by the very self that encases me,
\u{1b}[32m8\u{1b}[0m: asphyxiated by conclusions, and I’d gladly scream if my voice could
\u{1b}[34m####\u{1b}[0m
\u{1b}[32m8\u{1b}[0m: asphyxiated by conclusions, and I’d gladly scream if my voice could
\u{1b}[32m9\u{1b}[0m: reach somewhere. But there’s this heavy slumber that moves from one
\u{1b}[32m10\u{1b}[0m: group of my sensations to another, \u{1b}[31mlike\u{1b}[0m drifting clouds that make the
\u{1b}[32m11\u{1b}[0m: half-shaded grass of sprawling fields turn various colours of sun and
\u{1b}[32m12\u{1b}[0m: green.
\u{1b}[34m####\u{1b}[0m
\u{1b}[32m12\u{1b}[0m: green.
\u{1b}[32m13\u{1b}[0m: 
\u{1b}[32m14\u{1b}[0m: I’m \u{1b}[31mlike\u{1b}[0m someone searching at random, not knowing what object he’s
\u{1b}[32m15\u{1b}[0m: looking for nor where it was hidden. We play hide-and-seek with no
\u{1b}[32m16\u{1b}[0m: one. There’s a transcendent trick in all of this, a fluid divinity we can
\u{1b}[34m####\u{1b}[0m
\u{1b}[32m19\u{1b}[0m: Yes, I reread these pages that represent worthless hours, brief
\u{1b}[32m20\u{1b}[0m: illusions or moments of calm, large hopes channelled into the
\u{1b}[32m21\u{1b}[0m: landscape, sorrows \u{1b}[31mlike\u{1b}[0m closed rooms, certain voices, a huge weariness,
\u{1b}[32m22\u{1b}[0m: the unwritten gospel.
\u{1b}[32m23\u{1b}[0m: 
\u{1b}[34m####\u{1b}[0m
\u{1b}[32m23\u{1b}[0m: 
\u{1b}[32m24\u{1b}[0m: We all have our vanity, and that vanity is our way of forgetting that
\u{1b}[32m25\u{1b}[0m: there are other people with a soul \u{1b}[31mlike\u{1b}[0m our own. My vanity consists of\n"
    );
}

#[test]
fn context_without_line_number() {
    let flags = flags_with(false, true, false);
    let lines = pessoa_lines();
    let m = matcher("like");
    let out = print_with_context(&m, &lines, &flags, 2, "####");
    assert_eq!(
        rendered(&out),
        "
In these times when an abyss opens up in my soul, the tiniest detail
distresses me \u{1b}[31mlike\u{1b}[0m a letter of farewell. I feel as if I’m always on the
verge of waking up. I’m oppressed by the very self that encases me,
asphyxiated by conclusions, and I’d gladly scream if my voice could
\u{1b}[34m####\u{1b}[0m
asphyxiated by conclusions, and I’d gladly scream if my voice could
reach somewhere. But there’s this heavy slumber that moves from one
group of my sensations to another, \u{1b}[31mlike\u{1b}[0m drifting clouds that make the
half-shaded grass of sprawling fields turn various colours of sun and
green.
\u{1b}[34m####\u{1b}[0m
green.

I’m \u{1b}[31mlike\u{1b}[0m someone searching at random, not knowing what object he’s
looking for nor where it was hidden. We play hide-and-seek with no
one. There’s a transcendent trick in all of this, a fluid divinity we can
\u{1b}[34m####\u{1b}[0m
Yes, I reread these pages that represent worthless hours, brief
illusions or moments of calm, large hopes channelled into the
landscape, sorrows \u{1b}[31mlike\u{1b}[0m closed rooms, certain voices, a huge weariness,
the unwritten gospel.

\u{1b}[34m####\u{1b}[0m

We all have our vanity, and that vanity is our way of forgetting that
there are other people with a soul \u{1b}[31mlike\u{1b}[0m our own. My vanity consists of\n"
    );
}

#[test]
fn invert_matches_without_line_number() {
    let flags = flags_with(false, false, true);
    let lines = pessoa_lines();
    let m = matcher("like");
    let out = print_invert_matches(&m, &lines, &flags);
    assert_eq!(
        rendered(&out),
        "Like someone on a hill who tries to make out the people in the
valley, I look down at myself from on high, and I’m a hazy and
confused landscape, along with everything else.

In these times when an abyss opens up in my soul, the tiniest detail
verge of waking up. I’m oppressed by the very self that encases me,
asphyxiated by conclusions, and I’d gladly scream if my voice could
reach somewhere. But there’s this heavy slumber that moves from one
half-shaded grass of sprawling fields turn various colours of sun and
green.

looking for nor where it was hidden. We play hide-and-seek with no
one. There’s a transcendent trick in all of this, a fluid divinity we can
only hear.

Yes, I reread these pages that represent worthless hours, brief
illusions or moments of calm, large hopes channelled into the
the unwritten gospel.

We all have our vanity, and that vanity is our way of forgetting that\n"
    );
}

#[test]
fn invert_matches_with_line_number() {
    let flags = flags_with(true, false, true);
    let lines = pessoa_lines();
    let m = matcher("like");
    let out = print_invert_matches(&m, &lines, &flags);
    assert_eq!(
        rendered(&out),
        "\u{1b}[32m1\u{1b}[0m: Like someone on a hill who tries to make out the people in the
\u{1b}[32m2\u{1b}[0m: valley, I look down at myself from on high, and I’m a hazy and
\u{1b}[32m3\u{1b}[0m: confused landscape, along with everything else.
\u{1b}[32m4\u{1b}[0m: 
\u{1b}[32m5\u{1b}[0m: In these times when an abyss opens up in my soul, the tiniest detail
\u{1b}[32m7\u{1b}[0m: verge of waking up. I’m oppressed by the very self that encases me,
\u{1b}[32m8\u{1b}[0m: asphyxiated by conclusions, and I’d gladly scream if my voice could
\u{1b}[32m9\u{1b}[0m: reach somewhere. But there’s this heavy slumber that moves from one
\u{1b}[32m11\u{1b}[0m: half-shaded grass of sprawling fields turn various colours of sun and
\u{1b}[32m12\u{1b}[0m: green.
\u{1b}[32m13\u{1b}[0m: 
\u{1b}[32m15\u{1b}[0m: looking for nor where it was hidden. We play hide-and-seek with no
\u{1b}[32m16\u{1b}[0m: one. There’s a transcendent trick in all of this, a fluid divinity we can
\u{1b}[32m17\u{1b}[0m: only hear.
\u{1b}[32m18\u{1b}[0m: 
\u{1b}[32m19\u{1b}[0m: Yes, I reread these pages that represent worthless hours, brief
\u{1b}[32m20\u{1b}[0m: illusions or moments of calm, large hopes channelled into the
\u{1b}[32m22\u{1b}[0m: the unwritten gospel.
\u{1b}[32m23\u{1b}[0m: 
\u{1b}[32m24\u{1b}[0m: We all have our vanity, and that vanity is our way of forgetting that\n"
    );
}

#[test]
fn multiple_matches_in_same_line_with_color() {
    let flags = flags_with(false, true, false);
    let lines = pessoa_lines();
    let m = matcher(r"\bour\b");
    let out = print_matches(&m, &lines, &flags);
    assert_eq!(
        rendered(&out),
        "We all have \u{1b}[31mour\u{1b}[0m vanity, and that vanity is \u{1b}[31mour\u{1b}[0m way of forgetting that
there are other people with a soul like \u{1b}[31mour\u{1b}[0m own. My vanity consists of\n"
    );
}
