use baumhard::core_model::primitives::Range;
use baumhard::font::fonts::AppFont;
use baumhard::core_model::regions::{ColorFontRegion, ColorFontRegionField, ColorFontRegions};
use baumhard::gfx_structs::predicate::{
   predicate_verdict, read_field, test_element, test_field, Comparator, ElementFacts, ModelFacts, PlainField,
   PlainFieldTest,
};

#[test]
fn the_first_deciding_field_gives_the_verdict() {
   assert!(!predicate_verdict(&vec![]));
   assert!(!predicate_verdict(&vec![(PlainFieldTest::Undecided, Comparator::equals())]));
   assert!(predicate_verdict(&vec![
      (PlainFieldTest::Undecided, Comparator::equals()),
      (PlainFieldTest::Channel { wanted: 2, element: 2 }, Comparator::equals()),
      (PlainFieldTest::Decided(false), Comparator::equals()),
   ]));
   assert!(!predicate_verdict(&vec![
      (PlainFieldTest::Decided(false), Comparator::equals()),
      (PlainFieldTest::Decided(true), Comparator::equals()),
   ]));
}

#[test]
fn channel_and_id_tests() {
   assert_eq!(test_field(&PlainFieldTest::Channel { wanted: 2, element: 3 }, Comparator::not_equals()), Some(true));
   assert_eq!(test_field(&PlainFieldTest::Channel { wanted: 4, element: 3 }, Comparator::greater()), Some(true));
   assert_eq!(test_field(&PlainFieldTest::Channel { wanted: 4, element: 3 }, Comparator::does_exist()), Some(false));
   assert_eq!(test_field(&PlainFieldTest::Id { wanted: 4, element: 3 }, Comparator::less()), Some(true));
   assert_eq!(test_field(&PlainFieldTest::Id { wanted: 4, element: 3 }, Comparator::not_exists()), Some(false));
}

#[test]
fn model_tests() {
   assert_eq!(test_field(&PlainFieldTest::Layer { wanted: 1, layer: Some(5) }, Comparator::greater_or_equal()), Some(true));
   assert_eq!(test_field(&PlainFieldTest::Layer { wanted: 1, layer: None }, Comparator::does_exist()), Some(false));
   assert_eq!(test_field(&PlainFieldTest::LineLength { wanted: 3, line: Some(Some(5)) }, Comparator::greater()), Some(true));
   assert_eq!(test_field(&PlainFieldTest::LineLength { wanted: 3, line: Some(None) }, Comparator::greater()), Some(false));
   assert_eq!(test_field(&PlainFieldTest::LineLength { wanted: 3, line: None }, Comparator::does_exist()), Some(false));
   assert_eq!(test_field(&PlainFieldTest::LineCount { wanted: 3, lines: Some(2) }, Comparator::greater()), Some(true));
   assert_eq!(test_field(&PlainFieldTest::LineCount { wanted: 3, lines: Some(2) }, Comparator::less_or_equal()), Some(false));
}

#[test]
fn region_tests() {
   let wanted = Range::new(1, 3);
   let target = Range::new(2, 4);
   assert_eq!(test_field(&PlainFieldTest::RegionRange { wanted, target }, Comparator::greater()), Some(true));
   assert_eq!(test_field(&PlainFieldTest::RegionRange { wanted, target }, Comparator::less()), Some(false));
   assert_eq!(test_field(&PlainFieldTest::RegionRange { wanted, target: wanted }, Comparator::equals()), Some(true));
   assert_eq!(
      test_field(&PlainFieldTest::RegionFont { wanted: AppFont::Any, target: None }, Comparator::does_exist()),
      Some(false)
   );
   assert_eq!(
      test_field(&PlainFieldTest::RegionFont { wanted: AppFont::Evilz, target: Some(AppFont::Evilz) }, Comparator::equals()),
      Some(true)
   );
   assert_eq!(test_field(&PlainFieldTest::RegionColor { present: true }, Comparator::not_exists()), Some(false));
   assert_eq!(test_field(&PlainFieldTest::RegionWhole, Comparator::does_exist()), Some(true));
}

fn area_element() -> ElementFacts {
   ElementFacts {
      channel: 3,
      id: 11,
      model: None,
      regions: Some(ColorFontRegions::new_from(vec![
         ColorFontRegion::new(Range::new(0, 4), Some(AppFont::Evilz), None),
         ColorFontRegion::new(Range::new(4, 9), None, Some([0, 0, 0, 0])),
      ])),
   }
}

fn model_element() -> ElementFacts {
   ElementFacts { channel: 1, id: 2, model: Some(ModelFacts { layer: 4, line_lengths: vec![3, 7] }), regions: None }
}

#[test]
fn fields_are_read_of_the_element() {
   let area = area_element();
   assert_eq!(read_field(&PlainField::Channel(3), &area), PlainFieldTest::Channel { wanted: 3, element: 3 });
   assert_eq!(
      read_field(&PlainField::Region(Range::new(0, 4), ColorFontRegionField::Font(AppFont::Any)), &area),
      PlainFieldTest::RegionFont { wanted: AppFont::Any, target: Some(AppFont::Evilz) }
   );
   assert_eq!(
      read_field(&PlainField::Region(Range::new(4, 9), ColorFontRegionField::Color([0, 0, 0, 0])), &area),
      PlainFieldTest::RegionColor { present: true }
   );
   assert_eq!(
      read_field(&PlainField::Region(Range::new(1, 2), ColorFontRegionField::This), &area),
      PlainFieldTest::Undecided
   );
   let model = model_element();
   assert_eq!(read_field(&PlainField::Layer(2), &model), PlainFieldTest::Layer { wanted: 2, layer: Some(4) });
   assert_eq!(
      read_field(&PlainField::LineLength(1, 5), &model),
      PlainFieldTest::LineLength { wanted: 5, line: Some(Some(7)) }
   );
   assert_eq!(
      read_field(&PlainField::LineLength(2, 5), &model),
      PlainFieldTest::LineLength { wanted: 5, line: Some(None) }
   );
   assert_eq!(read_field(&PlainField::LineCount(2), &model), PlainFieldTest::LineCount { wanted: 2, lines: Some(2) });
   assert_eq!(read_field(&PlainField::Layer(2), &area), PlainFieldTest::Layer { wanted: 2, layer: None });
}

#[test]
fn elements_are_tested_by_their_first_deciding_field() {
   let area = area_element();
   assert!(test_element(
      &vec![
         (PlainField::Region(Range::new(1, 2), ColorFontRegionField::This), Comparator::does_exist()),
         (PlainField::Region(Range::new(0, 4), ColorFontRegionField::Font(AppFont::Evilz)), Comparator::equals()),
      ],
      &area
   ));
   assert!(!test_element(&vec![(PlainField::Id(12), Comparator::equals())], &area));
   let model = model_element();
   assert!(test_element(&vec![(PlainField::LineLength(1, 5), Comparator::greater())], &model));
   assert!(!test_element(&vec![(PlainField::Undecided, Comparator::equals())], &model));
}
