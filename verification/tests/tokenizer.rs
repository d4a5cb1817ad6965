use string_tokenizer::StringTokenizer;

fn collect(source: &str, delimiter: &str) -> Vec<String> {
    let mut tokenizer = StringTokenizer::new(source, delimiter);
    let mut tokens = Vec::new();
    while tokenizer.has_next() {
        tokens.push(tokenizer.get_next());
    }
    tokens
}

fn collect_trimmed(source: &str, delimiter: &str) -> Vec<String> {
    let mut tokenizer = StringTokenizer::new(source, delimiter);
    let mut tokens = Vec::new();
    while tokenizer.has_next() {
        tokens.push(tokenizer.get_next_with_trim());
    }
    tokens
}

#[test]
fn test_string_tokenizer_normal() {
    let target_string = "Hello,world,from,rust";

    let mut token = StringTokenizer::new(&target_string, ",");

    assert_eq!(token.has_next(), true);
    assert_eq!(token.get_next(), "Hello");
    assert_eq!(token.has_next(), true);
    assert_eq!(token.get_next(), "world");
    assert_eq!(token.has_next(), true);
    assert_eq!(token.get_next(), "from");
    assert_eq!(token.has_next(), true);
    assert_eq!(token.get_next(), "rust");
    assert_eq!(token.has_next(), false);
}

#[test]
fn test_string_tokenizer_normal_2() {
    let target_string = "Hello,world,from,rust";

    let mut token = StringTokenizer::new(&target_string, ",");

    let mut count = 0;
    while token.has_next() {
        println!("{}", token.get_next());
        count = count + 1;
    }

    assert_eq!(count, 4);
}

#[test]
fn test_string_tokenizer_without_token() {
    let target_string = "Hello,world,from,rust";

    let mut token = StringTokenizer::new(&target_string, "_");

    let mut count = 0;
    while token.has_next() {
        println!("{}", token.get_next());
        count = count + 1;
    }

    assert_eq!(count, 1);
}

#[test]
fn test_string_tokenizer_with_front_token() {
    let target_string = ",Hello,world,from,rust";

    let mut token = StringTokenizer::new(&target_string, ",");

    let mut count = 0;
    while token.has_next() {
        println!("{}", token.get_next());
        count = count + 1;
    }

    assert_eq!(count, 5);
}

#[test]
fn test_string_tokenizer_with_token_last() {
    let target_string = "Hello,world,from,rust";

    let mut token = StringTokenizer::new(&target_string, ",");

    let mut count = 0;
    while token.has_next() {
        println!("{}", token.get_next());
        count = count + 1;
    }

    assert_eq!(count, 4);
}

#[test]
fn test_string_tokenizer_with_multiple_token_bytes() {
    let target_string = "Hello,_,world,_,from,_,rust!,_,";

    let mut token = StringTokenizer::new(&target_string, ",_,");

    let mut count = 0;
    while token.has_next() {
        println!("{}", token.get_next());
        count = count + 1;
    }

    assert_eq!(count, 4);
}

#[test]
fn test_string_tokenizer_only_token() {
    let target_string = ",,,";

    let mut token = StringTokenizer::new(&target_string, ",");

    let mut count = 0;
    while token.has_next() {
        println!("{}", token.get_next());
        count = count + 1;
    }

    assert_eq!(count, 3);
}

#[test]
fn test_string_tokenizer_with_trim() {
    let target_string = "Hello , world, from ,  rust  ";

    let mut token = StringTokenizer::new(&target_string, ",");

    assert_eq!(token.has_next(), true);
    assert_eq!(token.get_next_with_trim(), "Hello");
    assert_eq!(token.has_next(), true);
    assert_eq!(token.get_next_with_trim(), "world");
    assert_eq!(token.has_next(), true);
    assert_eq!(token.get_next_with_trim(), "from");
    assert_eq!(token.has_next(), true);
    assert_eq!(token.get_next_with_trim(), "rust");
    assert_eq!(token.has_next(), false);
}

#[test]
fn tokens_of_comma_separated_words() {
    assert_eq!(collect("Hello,world,from,rust", ","), vec!["Hello", "world", "from", "rust"]);
}

#[test]
fn absent_delimiter_gives_the_whole_text() {
    assert_eq!(collect("Hello,world,from,rust", "_"), vec!["Hello,world,from,rust"]);
}

#[test]
fn leading_delimiter_gives_an_empty_first_token() {
    assert_eq!(collect(",Hello,world,from,rust", ","), vec!["", "Hello", "world", "from", "rust"]);
}

#[test]
fn text_of_delimiters_only_gives_empty_tokens() {
    assert_eq!(collect(",,,", ","), vec!["", "", ""]);
}

#[test]
fn long_delimiter_is_matched_whole() {
    assert_eq!(
        collect("Hello,_,world,_,from,_,rust!,_,", ",_,"),
        vec!["Hello", "world", "from", "rust!"]
    );
}

#[test]
fn partial_delimiter_is_no_match() {
    assert_eq!(collect("ab,_x,_,y", ",_,"), vec!["ab,_x", "y"]);
    assert_eq!(collect("a,,_,b", ",_,"), vec!["a,", "b"]);
}

#[test]
fn occurrences_are_taken_greedily_from_the_left() {
    assert_eq!(collect("aaa", "aa"), vec!["", "a"]);
    assert_eq!(collect("aaaa", "aa"), vec!["", ""]);
}

#[test]
fn trimmed_tokens_of_padded_words() {
    assert_eq!(
        collect_trimmed("Hello , world, from ,  rust  ", ","),
        vec!["Hello", "world", "from", "rust"]
    );
}

#[test]
fn empty_source_has_no_tokens() {
    let mut tokenizer = StringTokenizer::new("", ",");
    assert!(!tokenizer.has_next());
    assert_eq!(tokenizer.get_next(), "");
    assert!(!tokenizer.has_next());
    assert_eq!(collect("", ",").len(), 0);
}

#[test]
fn delimiter_longer_than_source_never_matches() {
    assert_eq!(collect("ab", "abc"), vec!["ab"]);
}

#[test]
fn source_equal_to_delimiter_gives_one_empty_token() {
    assert_eq!(collect(",_,", ",_,"), vec![""]);
}

#[test]
fn trailing_delimiter_ends_the_scan() {
    let mut tokenizer = StringTokenizer::new("a,b,", ",");
    assert_eq!(tokenizer.get_next(), "a");
    assert_eq!(tokenizer.get_next(), "b");
    assert!(!tokenizer.has_next());
    assert_eq!(tokenizer.get_next(), "");
    assert!(!tokenizer.has_next());
}

#[test]
fn non_ascii_text_and_delimiter() {
    assert_eq!(collect("héllo→wörld→日本語", "→"), vec!["héllo", "wörld", "日本語"]);
    assert_eq!(collect("日本語", "本"), vec!["日", "語"]);
    assert_eq!(collect("ß·ß··ß", "·"), vec!["ß", "ß", "", "ß"]);
}

#[test]
fn tokens_agree_with_split_on_text_without_trailing_delimiter() {
    let sources = ["a,b,c", ",a", "a,,b", "x", "日,本,語", "a, b ,c"];
    for source in sources {
        let expected: Vec<String> = source.split(',').map(String::from).collect();
        assert_eq!(collect(source, ","), expected);
    }
}

#[test]
fn empty_delimiter_matches_at_the_cursor() {
    let mut tokenizer = StringTokenizer::new("abc", "");
    assert!(tokenizer.has_next());
    assert_eq!(tokenizer.get_next(), "");
    assert!(tokenizer.has_next());
    assert_eq!(tokenizer.get_next(), "");
    assert!(tokenizer.has_next());
}

#[test]
fn token_count_is_occurrences_plus_one() {
    let cases = [("a,b,c", ",", 2), ("abc", ",", 0), (",a", ",", 1), ("a--b--c--d", "--", 3)];
    for (source, delimiter, occurrences) in cases {
        assert_eq!(source.matches(delimiter).count(), occurrences);
        assert_eq!(collect(source, delimiter).len(), occurrences + 1);
    }
}

#[test]
fn token_count_is_occurrences_where_the_text_ends_on_one() {
    let cases = [("a,b,", ",", 2), (",,,", ",", 3), ("", ",", 0), ("a--", "--", 1)];
    for (source, delimiter, occurrences) in cases {
        assert_eq!(source.matches(delimiter).count(), occurrences);
        assert_eq!(collect(source, delimiter).len(), occurrences);
    }
}

#[test]
fn joined_tokens_give_the_source_back() {
    let cases = [
        ("Hello,world,from,rust", ","),
        (",Hello,,world", ","),
        ("Hello,_,world,_,from", ",_,"),
        ("no delimiter here", "|"),
        ("", ","),
        ("aaa", "aa"),
        ("日本語→テキスト", "→"),
    ];
    for (source, delimiter) in cases {
        assert_eq!(collect(source, delimiter).join(delimiter), source);
    }
}

#[test]
fn joined_tokens_lack_only_a_final_delimiter() {
    let cases = [("a,b,", ","), (",,,", ","), ("Hello,_,world,_,", ",_,")];
    for (source, delimiter) in cases {
        let mut joined = collect(source, delimiter).join(delimiter);
        joined.push_str(delimiter);
        assert_eq!(joined, source);
    }
}

#[test]
fn exhausted_tokenizer_stays_exhausted() {
    let mut tokenizer = StringTokenizer::new("a,b", ",");
    while tokenizer.has_next() {
        tokenizer.get_next();
    }
    for _ in 0..5 {
        assert_eq!(tokenizer.get_next(), "");
        assert!(!tokenizer.has_next());
        assert_eq!(tokenizer.get_next_with_trim(), "");
        assert!(!tokenizer.has_next());
    }
}

#[test]
fn trimmed_token_is_the_token_trimmed() {
    let sources = [
        "Hello , world, from ,  rust  ",
        " \t a b \n,,   ,\u{3000}x\u{a0},\r\ny",
        "",
        "   ",
        "a,b",
        "\u{2003}wide\u{2009},\u{85}next\u{1680}",
    ];
    for source in sources {
        let mut plain = StringTokenizer::new(source, ",");
        let mut trimming = StringTokenizer::new(source, ",");
        while plain.has_next() {
            assert!(trimming.has_next());
            assert_eq!(trimming.get_next_with_trim(), plain.get_next().trim());
        }
        assert!(!trimming.has_next());
    }
}

#[test]
fn trimming_keeps_inner_whitespace_and_empty_tokens() {
    assert_eq!(collect_trimmed(" a b ,, c\t", ","), vec!["a b", "", "c"]);
    assert_eq!(collect_trimmed("   ", ","), vec![""]);
}
