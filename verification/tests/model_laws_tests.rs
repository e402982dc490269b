use baumhard::core_model::regions::ColorFontRegions;
use baumhard::font::fonts::AppFont;
use baumhard::core_model::primitives::ApplyOperation;
use baumhard::gfx_structs::model::{apply_to_layer, apply_to_matrix, GlyphComponent, GlyphLine, GlyphMatrix};
use baumhard::util::color::Color;

fn line_of(texts: &[&str]) -> GlyphLine {
   let comps = texts
      .iter()
      .map(|t| GlyphComponent::text(t, AppFont::Any, Color::black()))
      .collect();
   GlyphLine::new_with_vec(comps, false)
}

fn text_of(line: &GlyphLine) -> String {
   line.line.iter().map(|c| c.text.clone()).collect()
}

fn item(text: &str) -> GlyphComponent {
   GlyphComponent::text(text, AppFont::Evilz, Color::white())
}

#[test]
fn expanding_insert_puts_the_text_in_and_keeps_the_rest() {
   let mut line = line_of(&["ab", "cd"]);
   line.expanding_insert(1, &item("X"));
   assert_eq!(text_of(&line), "aXbcd");
   let mut line = line_of(&["ab", "cd"]);
   line.expanding_insert(2, &item("X"));
   assert_eq!(text_of(&line), "abXcd");
   let mut line = line_of(&["ab", "cd"]);
   line.expanding_insert(6, &item("X"));
   assert_eq!(text_of(&line), "abcd  X");
}

#[test]
fn overriding_insert_writes_over_the_text() {
   let mut line = line_of(&["abc", "def"]);
   line.overriding_insert(1, &item("XY"));
   assert_eq!(text_of(&line), "aXYdef");
   let mut line = line_of(&["abc", "def"]);
   line.overriding_insert(1, &item("XYZW"));
   assert_eq!(text_of(&line), "aXYZWf");
   let mut line = line_of(&["abcdef"]);
   line.overriding_insert(2, &item("XY"));
   assert_eq!(text_of(&line), "abXYef");
   let mut line = line_of(&["abc"]);
   line.overriding_insert(5, &item("X"));
   assert_eq!(text_of(&line), "abc  X");
   let mut line = line_of(&["abc", "def"]);
   line.overriding_insert(4, &item("XYZW"));
   assert_eq!(text_of(&line), "abcdXYZW");
}

#[test]
fn overriding_insert_at_a_boundary_overwrites() {
   let mut line = line_of(&["aa", "bb", "cc"]);
   line.overriding_insert(2, &item("XX"));
   assert_eq!(text_of(&line), "aaXXcc");
   assert_eq!(line.line.len(), 3);
   let mut line = line_of(&["aa", "bb", "cc"]);
   line.overriding_insert(2, &item("X"));
   assert_eq!(text_of(&line), "aaXbcc");
   let mut line = line_of(&["aa", "bb", "cc"]);
   line.overriding_insert(2, &item("XYZ"));
   assert_eq!(text_of(&line), "aaXYZc");
   assert_eq!(line.length(), 6);
}

#[test]
fn overriding_insert_at_the_front_cuts_the_first_component() {
   let mut line = GlyphLine::new_with_vec(
      vec![
         GlyphComponent::text("0123456789", AppFont::AppleTea, Color::black()),
         GlyphComponent::text("abc", AppFont::AppleTea, Color::black()),
      ],
      false,
   );
   let xy = GlyphComponent::text("xy", AppFont::Evilz, Color::black());
   line.overriding_insert(0, &xy);
   assert_eq!(
      line.line,
      vec![
         xy.clone(),
         GlyphComponent::text("23456789", AppFont::AppleTea, Color::black()),
         GlyphComponent::text("abc", AppFont::AppleTea, Color::black()),
      ]
   );
}

#[test]
fn component_lookup_round_trips() {
   let line = line_of(&["ab", "", "cde", "f"]);
   for i in [0usize, 2, 3] {
      assert_eq!(line.component_of_index(line.index_of_component(i)), i);
   }
   for x in 0..line.length() {
      let k = line.component_of_index(x);
      let start = line.index_of_component(k);
      assert!(start <= x && x < start + line.line[k].length());
   }
   assert_eq!(line.component_of_index(6), 4);
}

#[test]
fn changing_components_in_place() {
   let mut line = line_of(&["ab", "cd"]);
   line.get_mut(1).unwrap().space_back(2);
   line.last_comp_mut().unwrap().pad_front("-", 1);
   assert!(line.get_mut(2).is_none());
   assert_eq!(text_of(&line), "ab-cd  ");
   let mut empty = GlyphLine::new();
   assert!(empty.last_comp_mut().is_none());
}

#[test]
fn matrix_index_mut_grows_the_matrix() {
   let mut matrix = GlyphMatrix::new();
   matrix.index_mut(2).push(item("z"));
   assert_eq!(matrix.matrix.len(), 3);
   assert_eq!(matrix.matrix[0].line.len(), 0);
   assert_eq!(text_of(&matrix.matrix[2]), "z");
   matrix.index_mut(0).push(item("a"));
   assert_eq!(matrix.matrix.len(), 3);
   assert_eq!(text_of(matrix.get(0).unwrap()), "a");
   assert!(matrix.get_mut(3).is_none());
}

#[test]
fn adding_components() {
   let a = GlyphComponent::text("ab", AppFont::Any, Color::new_u8(&[1, 2, 3, 250]));
   let b = GlyphComponent::text("cd", AppFont::Norse, Color::new_u8(&[1, 1, 1, 10]));
   let sum = a + b;
   assert_eq!(sum.text, "abcd");
   assert_eq!(sum.font, AppFont::Norse);
   assert_eq!(sum.color.rgba, [2, 3, 4, 4]);
}

#[test]
fn checked_inserts_write_where_the_lengths_fit() {
   let mut matrix = GlyphMatrix::new();
   matrix.push(line_of(&["abc", "de"]));
   assert!(matrix.checked_overriding_insert(0, 0, &item("X")));
   assert_eq!(text_of(matrix.get(0).unwrap()), "Xbcde");
   assert!(matrix.checked_overriding_insert(0, 1, &item("Y")));
   assert_eq!(text_of(matrix.get(0).unwrap()), "XYcde");
   assert!(matrix.checked_expanding_insert(2, 1, &item("Y")));
   assert_eq!(matrix.matrix.len(), 3);
   assert_eq!(text_of(matrix.get(2).unwrap()), " Y");
}

#[test]
fn place_in_stops_where_the_line_numbers_overflow() {
   let mut matrix = GlyphMatrix::new();
   matrix.push(line_of(&["ab"]));
   let mut text = String::from("x");
   let mut regions = ColorFontRegions::new_empty();
   assert!(!matrix.place_in(&mut text, &mut regions, (0, usize::MAX)));
   assert!(matrix.place_in(&mut text, &mut regions, (1, 0)));
   assert_eq!(text, "xab");
   assert_eq!(regions.num_regions(), 1);
}

#[test]
fn space_components_hold_no_non_space() {
   for n in [0usize, 1, 3, 40] {
      let comp = GlyphComponent::space(n);
      assert!(!comp.contains_non_space());
      assert_eq!(comp.index_of_first_non_space_char(), None);
   }
}

#[test]
fn white_space_agrees_with_char_is_whitespace() {
   for u in 0u32..=0x10FFFF {
      if let Some(c) = char::from_u32(u) {
         let comp = GlyphComponent::text(&c.to_string(), AppFont::Any, Color::black());
         assert_eq!(comp.contains_non_space(), !c.is_whitespace(), "{:#x}", u);
      }
   }
}

#[test]
fn operations_on_a_models_layer() {
   let cases = [
      (ApplyOperation::Add, 7),
      (ApplyOperation::Subtract, 3),
      (ApplyOperation::Multiply, 10),
      (ApplyOperation::Assign, 2),
      (ApplyOperation::Delete, 0),
      (ApplyOperation::Noop, 5),
   ];
   for (op, expected) in cases {
      let mut layer = 5usize;
      apply_to_layer(op, &mut layer, 2);
      assert_eq!(layer, expected);
   }
}

#[test]
fn operations_on_a_models_matrix() {
   let mut base = GlyphMatrix::new();
   base.push(line_of(&["ab"]));
   let mut over = GlyphMatrix::new();
   over.push(line_of(&["X"]));
   over.push(line_of(&["yz"]));

   let mut m = base.clone();
   apply_to_matrix(ApplyOperation::Add, &mut m, over.clone());
   assert_eq!(m.matrix.len(), 2);
   assert_eq!(text_of(&m.matrix[0]), "Xb");
   assert_eq!(text_of(&m.matrix[1]), "yz");

   let mut m = base.clone();
   apply_to_matrix(ApplyOperation::Subtract, &mut m, over.clone());
   assert_eq!(m.matrix.len(), 1);
   assert_eq!(text_of(&m.matrix[0]), "Xb");

   let mut m = base.clone();
   apply_to_matrix(ApplyOperation::Assign, &mut m, over.clone());
   assert_eq!(m, over);

   let mut m = base.clone();
   apply_to_matrix(ApplyOperation::Delete, &mut m, over.clone());
   assert_eq!(m.matrix.len(), 0);

   let mut m = base.clone();
   apply_to_matrix(ApplyOperation::Noop, &mut m, over.clone());
   assert_eq!(m, base);
}

#[test]
fn discard_front_of_zero_keeps_the_component() {
   let mut comp = GlyphComponent::text("abcd🍕1234", AppFont::Any, Color::black());
   comp.discard_front(0);
   assert_eq!(comp.text, "abcd🍕1234");
   comp.discard_front(3);
   assert_eq!(comp.text, "d🍕1234");
   comp.discard_front(10);
   assert_eq!(comp.text, "");
}

#[test]
fn place_in_twice_with_a_leading_combining_mark() {
   // A component that starts with a combining mark joins the cluster before it, so a
   // second placement finds the text one cluster shorter and writes the mark again.
   let mut matrix = GlyphMatrix::new();
   matrix.push(GlyphLine::new_with(GlyphComponent::text("\u{301}", AppFont::Any, Color::black())));
   let mut text = String::new();
   let mut regions = ColorFontRegions::new_empty();
   assert!(matrix.place_in(&mut text, &mut regions, (1, 0)));
   assert_eq!(text, " \u{301}");
   assert!(matrix.place_in(&mut text, &mut regions, (1, 0)));
   assert_eq!(text, " \u{301}\u{301}");
}
