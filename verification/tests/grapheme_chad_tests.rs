use baumhard::util::grapheme_chad::{
   count_grapheme_clusters, count_number_lines, delete_back_unicode, delete_front_unicode,
   find_byte_index_of_grapheme, find_nth_line_byte_range, find_nth_line_grapheme_range,
   find_index_after_nth_grapheme, insert_new_lines, insert_spaces, nth_grapheme_cluster_byte_index,
   push_spaces, replace_graphemes_until_newline, slice_to_newline, split_off_graphemes,
   try_replace_graphemes_until_newline,
};

const COMPLEX_NEWLINE_STRING: &'static str = "🙏🏻🙏🏻🙏🏻🙏🏻🙏🏻🙏🏻🙏🏻🙏🏻🙏🏻🙏🏻@@@@@@@@@@\n🙏🏻🙏🏻🙏🏻🙏🏻🙏🏻🙏🏻🙏🏻🙏🏻🙏🏻🙏🏻@@@@@@@@@@\n🙏🏻🙏🏻🙏🏻🙏🏻🙏🏻🙏🏻🙏🏻🙏🏻🙏🏻🙏🏻@@@@@@@@@@\n          🙏🏻🙏🏻🙏🏻🙏🏻🙏🏻🙏🏻🙏🏻🙏🏻🙏🏻🙏🏻\n          🙏🏻🙏🏻🙏🏻🙏🏻🙏🏻🙏🏻🙏🏻🙏🏻🙏🏻🙏🏻\n          🙏🏻🙏🏻🙏🏻🙏🏻🙏🏻🙏🏻🙏🏻🙏🏻🙏🏻🙏🏻";

const SPLIT_GRAPHEMES_TEST: &[(&'static str, usize, &'static str, &'static str)] = &[
            ("abcd🍕1234", 4, "abcd", "🍕1234"),
            ("abcd🍕1234", 5, "abcd🍕", "1234"),
            ("abcd🙏🏻1234", 5, "abcd🙏🏻", "1234"),
            ("abcd🙏🏻1234", 4, "abcd", "🙏🏻1234"),
            ("🙏🏻🙏🏻🙏🏻🙏🏻1234", 4, "🙏🏻🙏🏻🙏🏻🙏🏻", "1234"),
            (
                "🙏🏻🙏🏻🙏🏻🙏🏻🍕🍕🍕🍕",
                3,
                "🙏🏻🙏🏻🙏🏻",
                "🙏🏻🍕🍕🍕🍕"
            ),
            ("🏳️‍🌈👩‍👧‍👦👯‍♂️👰‍♂️👨‍🚀", 3, "🏳️‍🌈👩‍👧‍👦👯‍♂️", "👰‍♂️👨‍🚀"),
        ];

const REMOVE_PREFIX_TESTS: &[(&'static str, usize, &'static str)] = &[
            ("abcd🍕1234", 3, "d🍕1234"),
            ("\n\nabcd🍕1234", 3, "bcd🍕1234"),
            ("\n\n bcd🍕1234", 3, "bcd🍕1234"),
            ("abcd🍕1234", 4, "🍕1234"),
            ("abcd🍕1234", 5, "1234"),
            ("abcd🍕1234", 6, "234"),
            ("abcd🍕1234", 7, "34"),
            ("abcd🍕1234", 8, "4"),
            ("abcd🍕1234", 9, ""),
            ("abcd🍕1234", 10, ""),
            ("🙏🏻🙏🏻🙏🏻", 1, "🙏🏻🙏🏻"),
            ("🙏🏻🙏🏻🙏🏻", 2, "🙏🏻"),
            ("🍕🍕🍕🍕🍕🍕🍕🍕🍕🍕", 2, "🍕🍕🍕🍕🍕🍕🍕🍕"),
        ];

const TRUNCATE_TESTS: &[(&'static str, usize, &'static str)] = &[
            ("abcd🍕1234", 3, "abcd🍕1"),
            ("abcd🍕1234", 4, "abcd🍕"),
            ("abcd🍕1234", 5, "abcd"),
            ("abcd🍕1234", 6, "abc"),
            ("abcd🍕1234", 7, "ab"),
            ("abcd🍕1234", 8, "a"),
            ("abcd🍕1234", 9, ""),
            ("abcd🍕1234", 10, ""),
            ("🙏🏻🙏🏻🙏🏻", 1, "🙏🏻🙏🏻"),
            ("🙏🏻🙏🏻🙏🏻", 2, "🙏🏻"),
            ("🍕🍕🍕🍕🍕🍕🍕🍕🍕🍕", 2, "🍕🍕🍕🍕🍕🍕🍕🍕"),
            ("🍕🍕🍕🍕🍕🍕🍕🍕🍕🍕\n", 2, "🍕🍕🍕🍕🍕🍕🍕🍕🍕"),
            (
                "🍕🍕🍕🍕🍕🍕🍕🍕🍕🍕\n\n\n\n\n\n\n\n\n\n\n",
                12,
                "🍕🍕🍕🍕🍕🍕🍕🍕🍕"
            ),
        ];

const COUNT_LINES_TEST: &[(&'static str, usize)] = &[
            ("abcd🍕1234", 1),
            ("abcd\n", 2),
            ("abcd\n\n", 3),
            ("\n\n", 3),
            ("", 1),
            ("\n", 2),
            ("\n\n\n", 4),
            ("\nho\nhi\nhello", 4),
            ("\n🙏🏻\n🙏🏻🙏🏻\n🙏🏻🙏🏻🙏🏻\n🙏🏻\n🙏🏻\n\n\n\n\n\n\n\n🙏🏻🙏🏻🙏🏻🙏🏻🙏🏻🙏🏻🙏🏻🙏🏻\n\n\n\n\n\n🙏🏻🙏🏻🙏🏻\n\n\n\n", 24),
            ("\nho\nhi\nhello🙏🏻🙏🏻🙏🏻\n\n\n🙏🏻\n\n\n🙏🏻\n\n\n🙏🏻\n\n\n\n\n🙏🏻\n\n\n\n🙏🏻\n\n", 24),
        ];

const NTH_LINE_BYTE_INDICES_TEST: &[(&'static str, usize, Option<(usize, usize)>)] = &[
            ("\n", 0, Some((0, 0))),
            ("", 0, None),
            ("a", 0, Some((0,1))),
            ("a\n", 1, None),
            ("a\n", 0, Some((0,1))),
            ("", 1, None),
            ("Hello\nxxxxxxxxxxqqqqqqqqqqxxxxxxxxxxqqqqqqqqqq\n", 1, Some((6, 46))),
            ("Hello\nxxxxxxxxxxqqqqqqqqqqxxxxxxxxxxqqqqqqqqqq", 1, Some((6, 46))),
            ("\n\n", 1, Some((1, 1))),
            ("\nhi\n", 1, Some((1, 3))),
            ("\nhi\n", 2, None),
            ("\nhi\na\nb\nc\nd", 4, Some((8, 9))),
            ("\n🙏🏻\n🙏🏻\n", 2, Some((1+8+1, 1+8+1+8))),
            ("🙏🏻🙏🏻🙏🏻🙏🏻🙏🏻🙏🏻🙏🏻🙏🏻🙏🏻🙏🏻\n🙏🏻🙏🏻🙏🏻🙏🏻🙏🏻🙏🏻🙏🏻🙏🏻🙏🏻🙏🏻\n🙏🏻🙏🏻🙏🏻🙏🏻🙏🏻🙏🏻🙏🏻🙏🏻🙏🏻🙏🏻", 1, Some((8*10+1, (8*10+1)+8*10))),
            ("🙏🏻🙏🏻🙏🏻🙏🏻🙏🏻🙏🏻🙏🏻🙏🏻🙏🏻🙏🏻\n🙏🏻🙏🏻🙏🏻🙏🏻🙏🏻🙏🏻🙏🏻🙏🏻🙏🏻🙏🏻\n🙏🏻🙏🏻🙏🏻🙏🏻🙏🏻🙏🏻🙏🏻🙏🏻🙏🏻🙏🏻", 2, Some((20*8 + 2, (20*8 + 2) + 10*8))),
        ];

const NTH_LINE_GRAPHEME_INDICES_TEST: &[(&'static str, usize, Option<(usize, usize)>)] = &[
            ("\n", 0, Some((0, 0))),
            ("", 0, None),
            ("a", 0, Some((0,1))),
            ("a\n", 1, None),
            ("a\n", 0, Some((0,1))),
            ("", 1, None),
            ("Hello\nxxxxxxxxxxqqqqqqqqqqxxxxxxxxxxqqqqqqqqqq\n", 1, Some((6, 46))),
            ("\n🙏🏻\n🙏🏻\n", 2, Some((3, 4))),
            ("\n🙏🏻\n🙏🏻🙏🏻🙏🏻🙏🏻🙏🏻\n", 2, Some((3, 8))),
            ("\n🙏🏻🙏🏻\n🙏🏻🙏🏻🙏🏻🙏🏻🙏🏻\n", 2, Some((4, 9))),
            ("🙏🏻🙏🏻🙏🏻🙏🏻🙏🏻🙏🏻🙏🏻🙏🏻🙏🏻🙏🏻\n🙏🏻🙏🏻🙏🏻🙏🏻🙏🏻🙏🏻🙏🏻🙏🏻🙏🏻🙏🏻\n🙏🏻🙏🏻🙏🏻🙏🏻🙏🏻🙏🏻🙏🏻🙏🏻🙏🏻🙏🏻", 0, Some((0, 10))),
            ("🙏🏻🙏🏻🙏🏻🙏🏻🙏🏻🙏🏻🙏🏻🙏🏻🙏🏻🙏🏻\n🙏🏻🙏🏻🙏🏻🙏🏻🙏🏻🙏🏻🙏🏻🙏🏻🙏🏻🙏🏻\n🙏🏻🙏🏻🙏🏻🙏🏻🙏🏻🙏🏻🙏🏻🙏🏻🙏🏻🙏🏻", 1, Some((11, 21))),
            ("🙏🏻🙏🏻🙏🏻🙏🏻🙏🏻🙏🏻🙏🏻🙏🏻🙏🏻🙏🏻\n🙏🏻🙏🏻🙏🏻🙏🏻🙏🏻🙏🏻🙏🏻🙏🏻🙏🏻🙏🏻\n🙏🏻🙏🏻🙏🏻🙏🏻🙏🏻🙏🏻🙏🏻🙏🏻🙏🏻🙏🏻", 2, Some((22, 32))),
            ("🙏🏻🙏🏻🙏🏻🙏🏻🙏🏻🙏🏻🙏🏻🙏🏻🙏🏻🙏🏻\n\n🙏🏻🙏🏻🙏🏻🙏🏻🙏🏻🙏🏻🙏🏻🙏🏻🙏🏻🙏🏻", 1, Some((11, 11))),
            ("🙏🏻🙏🏻🙏🏻🙏🏻🙏🏻🙏🏻🙏🏻🙏🏻🙏🏻🙏🏻\na\n🙏🏻🙏🏻🙏🏻🙏🏻🙏🏻🙏🏻🙏🏻🙏🏻🙏🏻🙏🏻", 1, Some((11, 12))),
            ("🙏🏻🙏🏻🙏🏻🙏🏻🙏🏻🙏🏻🙏🏻🙏🏻🙏🏻🙏🏻\n\n🙏🏻🙏🏻🙏🏻🙏🏻🙏🏻🙏🏻🙏🏻🙏🏻🙏🏻🙏🏻", 2, Some((12, 22))),
        ];

const REPLACE_GRAPHEMES_UNTIL_NEWLINE_TEST: &[(&'static str, usize, &'static str, &'static str)] = &[
            ("abc", 0, "abc", "abc"),
            ("abd", 0, "abc", "abd"),
            ("abd", 0, "", "abd"),
            ("abd", 0, "abcd", "abdd"),
            ("🙏🏻🙏🏻🙏🏻", 0, "", "🙏🏻🙏🏻🙏🏻"),
            ("🙏🏻🙏🏻🙏🏻", 0, "\n", "🙏🏻🙏🏻🙏🏻\n"),
            ("🙏🏻", 0, "abcd", "🙏🏻bcd"),
            ("a", 0, "🙏🏻bcd", "abcd"),
            ("aaaaaaaaaaaaaa", 0, "🙏🏻bcd12🙏🏻3456789", "aaaaaaaaaaaaaa"),
            ("aaaaaaaaaaaaaa", 0, "🙏🏻bcd12🙏🏻\n3456789", "aaaaaaaaaaaaaa\n3456789"),
            ("🙏🏻🙏🏻🙏🏻🙏🏻🙏🏻🙏🏻🙏🏻🙏🏻🙏🏻🙏🏻", 0,
                "🙏🏻🙏🏻🙏🏻🙏🏻🙏🏻🙏🏻🙏🏻🙏🏻🙏🏻🙏🏻\n🙏🏻🙏🏻🙏🏻🙏🏻🙏🏻🙏🏻🙏🏻🙏🏻🙏🏻🙏🏻\n🙏🏻🙏🏻🙏🏻🙏🏻🙏🏻🙏🏻🙏🏻🙏🏻🙏🏻🙏🏻",
                "🙏🏻🙏🏻🙏🏻🙏🏻🙏🏻🙏🏻🙏🏻🙏🏻🙏🏻🙏🏻\n🙏🏻🙏🏻🙏🏻🙏🏻🙏🏻🙏🏻🙏🏻🙏🏻🙏🏻🙏🏻\n🙏🏻🙏🏻🙏🏻🙏🏻🙏🏻🙏🏻🙏🏻🙏🏻🙏🏻🙏🏻"),
            ("12345", 10, "01234\n678\n", "01234\n678\n12345"),
            ("12345", 10, "01234\n678\n\n", "01234\n678\n12345\n"),
            ("12345", 10, "01234\n678\nabcde\n", "01234\n678\n12345\n"),
            ("12345", 10, "01234\n678\n     \n", "01234\n678\n12345\n"),
            ("123", 10, "01234\n678\n     \n", "01234\n678\n123  \n"),
            ("123", 10, "01234\n678\nabcde\n", "01234\n678\n123de\n"),
            ("🙏🏻🙏🏻🙏🏻🙏🏻🙏🏻🙏🏻🙏🏻🙏🏻🙏🏻🙏🏻", 11, "🙏🏻🙏🏻🙏🏻🙏🏻🙏🏻🙏🏻🙏🏻🙏🏻🙏🏻🙏🏻\n", "🙏🏻🙏🏻🙏🏻🙏🏻🙏🏻🙏🏻🙏🏻🙏🏻🙏🏻🙏🏻\n🙏🏻🙏🏻🙏🏻🙏🏻🙏🏻🙏🏻🙏🏻🙏🏻🙏🏻🙏🏻"),
            ("@@@@@@@@@@", 63,
                "🙏🏻🙏🏻🙏🏻🙏🏻🙏🏻🙏🏻🙏🏻🙏🏻🙏🏻🙏🏻@@@@@@@@@@\n🙏🏻🙏🏻🙏🏻🙏🏻🙏🏻🙏🏻🙏🏻🙏🏻🙏🏻🙏🏻@@@@@@@@@@\n🙏🏻🙏🏻🙏🏻🙏🏻🙏🏻🙏🏻🙏🏻🙏🏻🙏🏻🙏🏻@@@@@@@@@@\n          🙏🏻🙏🏻🙏🏻🙏🏻🙏🏻🙏🏻🙏🏻🙏🏻🙏🏻🙏🏻\n          🙏🏻🙏🏻🙏🏻🙏🏻🙏🏻🙏🏻🙏🏻🙏🏻🙏🏻🙏🏻\n          🙏🏻🙏🏻🙏🏻🙏🏻🙏🏻🙏🏻🙏🏻🙏🏻🙏🏻🙏🏻",
                "🙏🏻🙏🏻🙏🏻🙏🏻🙏🏻🙏🏻🙏🏻🙏🏻🙏🏻🙏🏻@@@@@@@@@@\n🙏🏻🙏🏻🙏🏻🙏🏻🙏🏻🙏🏻🙏🏻🙏🏻🙏🏻🙏🏻@@@@@@@@@@\n🙏🏻🙏🏻🙏🏻🙏🏻🙏🏻🙏🏻🙏🏻🙏🏻🙏🏻🙏🏻@@@@@@@@@@\n@@@@@@@@@@🙏🏻🙏🏻🙏🏻🙏🏻🙏🏻🙏🏻🙏🏻🙏🏻🙏🏻🙏🏻\n          🙏🏻🙏🏻🙏🏻🙏🏻🙏🏻🙏🏻🙏🏻🙏🏻🙏🏻🙏🏻\n          🙏🏻🙏🏻🙏🏻🙏🏻🙏🏻🙏🏻🙏🏻🙏🏻🙏🏻🙏🏻"),
        ];

const COUNT_GRAPHEMES_TEST: &[(&'static str, usize)] = &[
            ("abcde", 5),
            ("🙏🏻", 1),
            ("abcd🙏🏻", 5),
            ("🙏🏻🙏🏻🙏🏻🙏🏻🙏🏻", 5),
            ("🙏🏻🙏🏻🙏🏻🙏🏻🙏🏻🙏🏻🙏🏻🙏🏻🙏🏻🙏🏻", 10),

        ];

const INDEX_OF_GRAPHEME_TEST: &[(&'static str, usize, Option<usize>)] = &[
            ("abcde", 4, Some(4)),
            ("🙏🏻🙏🏻🙏🏻🙏🏻🙏🏻", 4, Some(4*8)),
            ("🙏🏻🙏🏻🙏🏻🙏🏻🙏🏻🙏🏻🙏🏻🙏🏻🙏🏻🙏🏻@@@@@@@@@@\n", 10, Some(10*8)),
            ("🙏🏻🙏🏻🙏🏻🙏🏻🙏🏻🙏🏻🙏🏻🙏🏻🙏🏻🙏🏻@@@@@@@@@@\n", 11, Some(10*8 + 1)),
            ("🙏🏻🙏🏻🙏🏻🙏🏻🙏🏻🙏🏻🙏🏻🙏🏻🙏🏻🙏🏻@@@@@@@@@@\n", 20, Some(10*8 + 10)),
            ("🙏🏻🙏🏻🙏🏻🙏🏻🙏🏻🙏🏻🙏🏻🙏🏻🙏🏻🙏🏻@@@@@@@@@@\n", 21, None),
            ("🙏🏻🙏🏻🙏🏻🙏🏻🙏🏻🙏🏻🙏🏻🙏🏻🙏🏻🙏🏻@@@@@@@@@@\n🙏🏻🙏🏻🙏🏻🙏🏻🙏🏻🙏🏻🙏🏻🙏🏻🙏🏻🙏🏻@@@@@@@@@@\n", 10, Some(10*8)),
            ("🙏🏻🙏🏻🙏🏻🙏🏻🙏🏻🙏🏻🙏🏻🙏🏻🙏🏻🙏🏻@@@@@@@@@@\n🙏🏻🙏🏻🙏🏻🙏🏻🙏🏻🙏🏻🙏🏻🙏🏻🙏🏻🙏🏻@@@@@@@@@@\n", 21, Some(10*8 + 11)),
            ("🙏🏻🙏🏻🙏🏻🙏🏻🙏🏻🙏🏻🙏🏻🙏🏻🙏🏻🙏🏻@@@@@@@@@@\n🙏🏻🙏🏻🙏🏻🙏🏻🙏🏻🙏🏻🙏🏻🙏🏻🙏🏻🙏🏻@@@@@@@@@@\n", 31, Some(20*8 + 11)),
            ("🙏🏻🙏🏻🙏🏻🙏🏻🙏🏻🙏🏻🙏🏻🙏🏻🙏🏻🙏🏻@@@@@@@@@@\n🙏🏻🙏🏻🙏🏻🙏🏻🙏🏻🙏🏻🙏🏻🙏🏻🙏🏻🙏🏻@@@@@@@@@@\n", 41, Some(20*8 + 21)),
            ("🙏🏻🙏🏻🙏🏻🙏🏻🙏🏻🙏🏻🙏🏻🙏🏻🙏🏻🙏🏻@@@@@@@@@@\n🙏🏻🙏🏻🙏🏻🙏🏻🙏🏻🙏🏻🙏🏻🙏🏻🙏🏻🙏🏻@@@@@@@@@@\n", 42, None),
            (COMPLEX_NEWLINE_STRING, 10, Some(10*8)),
            (COMPLEX_NEWLINE_STRING, 11, Some(10*8 + 1)),
            (COMPLEX_NEWLINE_STRING, 20, Some(10*8 + 10)),
            (COMPLEX_NEWLINE_STRING, 21, Some(10*8 + 11)),
            (COMPLEX_NEWLINE_STRING, 31, Some(20*8 + 11)),
            (COMPLEX_NEWLINE_STRING, 41, Some(20*8 + 21)),
            (COMPLEX_NEWLINE_STRING, 41, Some(20*8 + 21)),
            (COMPLEX_NEWLINE_STRING, 52, Some(30*8 + 22)),
            (COMPLEX_NEWLINE_STRING, 62, Some(30*8 + 32)),
            (COMPLEX_NEWLINE_STRING, 63, Some(30*8 + 33)),
            (COMPLEX_NEWLINE_STRING, 83, Some(40*8 + 43)),
            (COMPLEX_NEWLINE_STRING, 84, Some(40*8 + 44)),
            (COMPLEX_NEWLINE_STRING, 94, Some(40*8 + 54)),
            (COMPLEX_NEWLINE_STRING, 104, Some(50*8 + 54)),
            (COMPLEX_NEWLINE_STRING, 105, Some(50*8 + 55)),
            (COMPLEX_NEWLINE_STRING, 115, Some(50*8 + 65)),
            (COMPLEX_NEWLINE_STRING, 124, Some(59*8 + 65)),
            // This is a little confusing, there's 60 "hands emojis" but the last one doesn't count here
            // Since we can only get a byte index to its beginning, its bytes aren't included in the count
        ];

fn slice_to_newline_test() -> Vec<(&'static str, usize, &'static str)> {
   vec![
            ("abcde\n", 0, "abcde"),
            ("🙏🏻🙏🏻🙏🏻🙏🏻🙏🏻", 0, "🙏🏻🙏🏻🙏🏻🙏🏻🙏🏻"),
            ("🙏🏻🙏🏻🙏🏻🙏🏻🙏🏻\n🙏🏻🙏🏻🙏🏻🙏🏻🙏🏻", 5*8+1, "🙏🏻🙏🏻🙏🏻🙏🏻🙏🏻"),
            (COMPLEX_NEWLINE_STRING,
                0, "🙏🏻🙏🏻🙏🏻🙏🏻🙏🏻🙏🏻🙏🏻🙏🏻🙏🏻🙏🏻@@@@@@@@@@"),
            (COMPLEX_NEWLINE_STRING,
                find_byte_index_of_grapheme(COMPLEX_NEWLINE_STRING, 21).unwrap(), "🙏🏻🙏🏻🙏🏻🙏🏻🙏🏻🙏🏻🙏🏻🙏🏻🙏🏻🙏🏻@@@@@@@@@@"),
        ]
}

#[test]
pub fn test_slice_to_newline() {
   do_slice_to_newline();
}

pub fn do_slice_to_newline() {
   for (subject, index, expected) in slice_to_newline_test() {
      let result = slice_to_newline(subject, index);
      assert_eq!(result, expected);
   }
}

#[test]
pub fn test_split_graphemes() {
   do_split_graphemes();
}

pub fn do_split_graphemes() {
   for (original, split_at, remainder, new) in SPLIT_GRAPHEMES_TEST.iter().copied() {
      let mut actual_remainder = original.to_string();
      let actual_new = split_off_graphemes(&mut actual_remainder, split_at);
      assert_eq!(actual_remainder, remainder);
      assert_eq!(actual_new, new);
   }
}

#[test]
pub fn test_find_byte_index_of_grapheme() {
   do_find_byte_index_of_grapheme();
}

pub fn do_find_byte_index_of_grapheme() {
   for (string, graph_index, expected_byte_index) in INDEX_OF_GRAPHEME_TEST.iter().copied() {
      if expected_byte_index.is_some() && expected_byte_index.unwrap() >= string.len()
      {
         panic!("Expected byte index is out of bounds!! This is a test error.");
      }
      let result = find_byte_index_of_grapheme(string, graph_index);
      assert_eq!(result, expected_byte_index);
   }
}

#[test]
pub fn test_replace_graphemes_until_newline() {
   do_replace_graphemes_until_newline();
}

pub fn do_replace_graphemes_until_newline() {
   for (source, idx, target, expected) in REPLACE_GRAPHEMES_UNTIL_NEWLINE_TEST.iter().copied() {
      let mut result = target.to_string();
      replace_graphemes_until_newline(&mut result, idx, &source);
      assert_eq!(result, expected);
   }
}

#[test]
pub fn test_count_grapheme_clusters() {
   do_count_grapheme_clusters();
}

pub fn do_count_grapheme_clusters() {
   for (string, num_clusters) in COUNT_GRAPHEMES_TEST.iter().copied() {
      let result = count_grapheme_clusters(string);
      assert_eq!(result, num_clusters);
   }
}

#[test]
pub fn test_find_nth_line_byte_indices() {
   do_find_nth_line_byte_indices();
}

pub fn do_find_nth_line_byte_indices() {
   for (str, n, idx) in NTH_LINE_BYTE_INDICES_TEST.iter().copied() {
      let result = find_nth_line_byte_range(str, n);
      assert_eq!(result, idx);
   }
}

#[test]
pub fn test_find_nth_line_grapheme_indices() {
   do_find_nth_line_grapheme_indices();
}

pub fn do_find_nth_line_grapheme_indices() {
   for (str, n, idx) in NTH_LINE_GRAPHEME_INDICES_TEST.iter().copied() {
      let result = find_nth_line_grapheme_range(str, n);
      assert_eq!(result, idx);
   }
}

#[test]
pub fn test_remove_prefix_unicode() {
   do_remove_prefix_unicode();
}

pub fn do_remove_prefix_unicode() {
   for (original, n, expected) in REMOVE_PREFIX_TESTS.iter().copied() {
      let mut our_og = original.to_string();
      delete_front_unicode(&mut our_og, n);
      assert_eq!(our_og, expected);
   }
}

#[test]
pub fn test_insert_new_lines() {
   do_insert_new_lines();
}

pub fn do_insert_new_lines() {
   let mut my_string = String::new();
   insert_new_lines(&mut my_string, 4);
   let mut count = count_number_lines(&my_string);
   assert_eq!(count, 5);
   insert_new_lines(&mut my_string, 5);
   count = count_number_lines(&my_string);
   assert_eq!(count, 10);
   insert_new_lines(&mut my_string, 5000);
   count = count_number_lines(&my_string);
   assert_eq!(count, 5010);
}
#[test]
pub fn test_push_spaces() {
   do_push_spaces();
}

pub fn do_push_spaces() {
   let mut my_string = String::new();
   push_spaces(&mut my_string, 5);
   assert_eq!(my_string.len(), count_grapheme_clusters(&my_string));
   assert_eq!(my_string.len(), 5);
   push_spaces(&mut my_string, 15);
   assert_eq!(my_string.len(), count_grapheme_clusters(&my_string));
   assert_eq!(my_string.len(), 20);
   push_spaces(&mut my_string, 0);
   assert_eq!(my_string.len(), 20);
}

#[test]
pub fn test_count_number_of_lines() {
   do_count_grapheme_clusters();
}

pub fn do_count_number_of_lines() {
   for (str, num_lines) in COUNT_LINES_TEST.iter().copied() {
      let result = count_number_lines(str);
      assert_eq!(result, num_lines);
   }
}

#[test]
pub fn test_truncate_unicode() {
   do_truncate_unicode();
}

pub fn do_truncate_unicode() {
   for (original, n, expected) in TRUNCATE_TESTS.iter().copied() {
      let mut our_og = original.to_string();
      delete_back_unicode(&mut our_og, n);
      assert_eq!(our_og, expected);
   }
}

#[test]
fn count_number_of_lines_table() {
   do_count_number_of_lines();
}

#[test]
fn nth_grapheme_cluster_byte_index_cases() {
   assert_eq!(nth_grapheme_cluster_byte_index("", 0), Some(0));
   assert_eq!(nth_grapheme_cluster_byte_index("", 1), None);
   assert_eq!(nth_grapheme_cluster_byte_index("ab", 0), Some(0));
   assert_eq!(nth_grapheme_cluster_byte_index("🙏🏻ab", 1), Some(8));
   assert_eq!(nth_grapheme_cluster_byte_index("🙏🏻ab", 2), Some(9));
   assert_eq!(nth_grapheme_cluster_byte_index("🙏🏻ab", 3), None);
}

#[test]
fn find_index_after_nth_grapheme_cases() {
   assert_eq!(find_index_after_nth_grapheme("🙏🏻ab", 0), Some(8));
   assert_eq!(find_index_after_nth_grapheme("🙏🏻ab", 2), Some(10));
   assert_eq!(find_index_after_nth_grapheme("🙏🏻ab", 3), None);
   assert_eq!(find_index_after_nth_grapheme("", 0), None);
}

#[test]
fn insert_spaces_cases() {
   let mut s = String::from("ab🙏🏻c");
   insert_spaces(&mut s, 2, 3);
   assert_eq!(s, "ab   🙏🏻c");
   let mut s = String::from("ab");
   insert_spaces(&mut s, 7, 2);
   assert_eq!(s, "ab  ");
   let mut s = String::new();
   insert_spaces(&mut s, 0, 1);
   assert_eq!(s, " ");
}

#[test]
fn replace_graphemes_reports_growth() {
   let mut s = String::from("ab\ncd");
   assert_eq!(replace_graphemes_until_newline(&mut s, 1, "xyz"), Some((2, 2)));
   assert_eq!(s, "axyz\ncd");
   let mut s = String::from("abc");
   assert_eq!(replace_graphemes_until_newline(&mut s, 0, "xyz"), None);
   assert_eq!(s, "xyz");
   let mut s = String::from("ab");
   assert_eq!(replace_graphemes_until_newline(&mut s, 5, "xy"), Some((2, 2)));
   assert_eq!(s, "abxy");
   let mut s = String::from("abcd\nef");
   assert_eq!(replace_graphemes_until_newline(&mut s, 0, "x"), None);
   assert_eq!(s, "xbcd\nef");
}

#[test]
fn try_replace_graphemes_until_newline_cases() {
   let mut s = String::from("ab\r\n");
   assert_eq!(try_replace_graphemes_until_newline(&mut s, 2, ""), Some(None));
   assert_eq!(s, "ab\r\n");
   let mut s = String::from("abc");
   assert_eq!(try_replace_graphemes_until_newline(&mut s, 0, "x"), Some(None));
   assert_eq!(s, "xbc");
   let mut s = String::from("abc");
   assert_eq!(try_replace_graphemes_until_newline(&mut s, 1, "xyz"), Some(Some((3, 1))));
   assert_eq!(s, "axyz");
}

#[test]
fn split_off_graphemes_keeps_every_character() {
   let original = "🏳️‍🌈👩‍👧‍👦ab";
   for at in 0..6 {
      let mut left = original.to_string();
      let right = split_off_graphemes(&mut left, at);
      assert_eq!(format!("{}{}", left, right), original);
   }
}

#[test]
fn delete_front_of_zero_keeps_everything() {
   let mut s = String::from("🙏🏻ab");
   delete_front_unicode(&mut s, 0);
   assert_eq!(s, "🙏🏻ab");
   let mut s = String::from("abcd🍕1234");
   delete_front_unicode(&mut s, 0);
   assert_eq!(s, "abcd🍕1234");
   let mut s = String::new();
   delete_front_unicode(&mut s, 0);
   assert_eq!(s, "");
}

#[test]
fn delete_back_of_zero_keeps_everything() {
   let mut s = String::from("🙏🏻ab");
   delete_back_unicode(&mut s, 0);
   assert_eq!(s, "🙏🏻ab");
}

#[test]
fn new_lines_add_lines() {
   let mut s = String::from("a\nb");
   let before = count_number_lines(&s);
   insert_new_lines(&mut s, 3);
   assert_eq!(count_number_lines(&s), before + 3);
}
