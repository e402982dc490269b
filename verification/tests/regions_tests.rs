use baumhard::core_model::primitives::Range;
use baumhard::core_model::regions::{ColorFontRegion, ColorFontRegions};
use baumhard::font::fonts::AppFont;

#[test]
fn test_split_and_separate_1() {
   do_split_and_separate_1();
}

pub fn do_split_and_separate_1() {
   let mut regions = ColorFontRegions::new_empty();
   regions.submit_region(ColorFontRegion::new_key_only(Range::new(0, 16)));
   regions.split_and_separate(Range::new(4, 8));
   assert_eq!(regions.num_regions(), 2);
   let _region_1 = regions.get(Range::new(0, 4)).unwrap();
   let _region_2 = regions.get(Range::new(8, 20)).unwrap();
}
#[test]
fn test_split_and_separate_2() {
   do_split_and_separate_2();
}

pub fn do_split_and_separate_2() {
   let mut regions = ColorFontRegions::new_empty();
   regions.submit_region(ColorFontRegion::new_key_only(Range::new(0, 16)));
   regions.submit_region(ColorFontRegion::new_key_only(Range::new(16, 32)));
   regions.split_and_separate(Range::new(4, 8));
   assert_eq!(regions.num_regions(), 3);
   let _region_1 = regions.get(Range::new(0, 4)).unwrap();
   let _region_2 = regions.get(Range::new(8, 20)).unwrap();
   let _region_3 = regions.get(Range::new(20, 36)).unwrap();
}

fn ranges(regions: &ColorFontRegions) -> Vec<(usize, usize)> {
   regions.all_regions().iter().map(|r| (r.range.start, r.range.end)).collect()
}

#[test]
fn regions_stay_ordered_by_range() {
   let mut regions = ColorFontRegions::new_empty();
   regions.submit_region(ColorFontRegion::new_key_only(Range::new(5, 9)));
   regions.submit_region(ColorFontRegion::new_key_only(Range::new(0, 3)));
   regions.submit_region(ColorFontRegion::new_key_only(Range::new(5, 7)));
   assert_eq!(ranges(&regions), vec![(0, 3), (5, 7), (5, 9)]);
}

#[test]
fn submit_replaces_a_region_with_the_same_range() {
   let mut regions = ColorFontRegions::new_empty();
   regions.submit_region(ColorFontRegion::new(Range::new(1, 4), Some(AppFont::Evilz), None));
   regions.submit_region(ColorFontRegion::new(Range::new(1, 4), Some(AppFont::Norse), None));
   assert_eq!(regions.num_regions(), 1);
   assert_eq!(regions.hard_get(Range::new(1, 4)).font, Some(AppFont::Norse));
}

#[test]
fn set_or_insert_merges_into_the_existing_region() {
   let mut regions = ColorFontRegions::new_empty();
   regions.submit_region(ColorFontRegion::new(Range::new(1, 4), Some(AppFont::Evilz), Some([1, 2, 3, 4])));
   regions.set_or_insert(&ColorFontRegion::new(Range::new(1, 4), None, Some([9, 9, 9, 9])));
   let merged = regions.hard_get(Range::new(1, 4));
   assert_eq!(merged.font, Some(AppFont::Evilz));
   assert_eq!(merged.color, Some([9, 9, 9, 9]));
   regions.set_or_insert(&ColorFontRegion::new(Range::new(6, 8), None, None));
   assert_eq!(ranges(&regions), vec![(1, 4), (6, 8)]);
}

#[test]
fn shifting_moves_only_later_regions() {
   let mut regions = ColorFontRegions::new_from(vec![
      ColorFontRegion::new_key_only(Range::new(0, 2)),
      ColorFontRegion::new_key_only(Range::new(3, 5)),
      ColorFontRegion::new_key_only(Range::new(2, 3)),
   ]);
   regions.shift_regions_after(2, 10);
   assert_eq!(ranges(&regions), vec![(0, 2), (2, 3), (13, 15)]);
}

#[test]
fn new_from_keeps_the_last_of_equal_ranges() {
   let regions = ColorFontRegions::new_from(vec![
      ColorFontRegion::new(Range::new(0, 2), Some(AppFont::Evilz), None),
      ColorFontRegion::new(Range::new(0, 2), Some(AppFont::Norse), None),
   ]);
   assert_eq!(regions.num_regions(), 1);
   assert_eq!(regions.hard_get(Range::new(0, 2)).font, Some(AppFont::Norse));
}

#[test]
fn removing_and_replacing() {
   let mut regions = ColorFontRegions::new_from(vec![
      ColorFontRegion::new_key_only(Range::new(0, 2)),
      ColorFontRegion::new_key_only(Range::new(4, 6)),
   ]);
   assert!(regions.remove_range(Range::new(0, 2)));
   assert!(!regions.remove_range(Range::new(0, 2)));
   assert!(regions.remove(&ColorFontRegion::new_key_only(Range::new(4, 6))));
   assert_eq!(regions.num_regions(), 0);
   let other = ColorFontRegions::new_from(vec![ColorFontRegion::new_key_only(Range::new(7, 9))]);
   regions.replace_regions(&other);
   assert_eq!(ranges(&regions), vec![(7, 9)]);
   assert!(regions.get(Range::new(7, 9)).is_some());
   assert!(regions.get(Range::new(7, 8)).is_none());
}

#[test]
fn split_and_separate_keeps_the_first_region_offered_for_a_range() {
   // (0, 4) is kept as it is, and (0, 9) is cut to (0, 4) too: the first one stays
   let mut regions = ColorFontRegions::new_from(vec![
      ColorFontRegion::new(Range::new(0, 4), Some(AppFont::Evilz), None),
      ColorFontRegion::new(Range::new(0, 9), Some(AppFont::Norse), None),
   ]);
   regions.split_and_separate(Range::new(4, 6));
   assert_eq!(ranges(&regions), vec![(0, 4), (6, 11)]);
   assert_eq!(regions.hard_get(Range::new(0, 4)).font, Some(AppFont::Evilz));
   assert_eq!(regions.hard_get(Range::new(6, 11)).font, Some(AppFont::Norse));
}
