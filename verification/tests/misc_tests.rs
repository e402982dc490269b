use baumhard::application::common::{KeyPress, RedrawMode, RenderDecree, RenderSetting, RenderSettingType};
use baumhard::application::game_concepts::{ObjectProperty, ObjectPropertyType, UiStack};
use baumhard::core_model::animation::{TimelineBuilder, TimelineEvent};
use baumhard::core_model::primitives::{Anchor, AnchorPoint, AnchorTarget};
use baumhard::font::fonts::AppFont;
use baumhard::gfx_structs::model::{GlyphComponent, GlyphLine};
use baumhard::gfx_structs::mutator::{GlyphTreeEvent, GlyphTreeEventInstance};
use baumhard::gfx_structs::predicate::Comparator;
use baumhard::util::color::Color;

#[test]
fn comparators_and_their_negations() {
   assert_eq!(Comparator::equals(), Comparator::Equals(false));
   assert_eq!(Comparator::not_equals(), Comparator::Equals(true));
   assert_eq!(Comparator::does_exist(), Comparator::Exists(false));
   assert_eq!(Comparator::not_exists(), Comparator::Exists(true));
   assert_eq!(Comparator::greater(), Comparator::GreaterThan(false));
   assert_eq!(Comparator::less_or_equal(), Comparator::GreaterThan(true));
   assert_eq!(Comparator::less(), Comparator::LessThan(false));
   assert_eq!(Comparator::greater_or_equal(), Comparator::LessThan(true));
}

#[test]
fn anchors() {
   let p = AnchorPoint::TopLeft(2);
   let q = AnchorPoint::Center(-1);
   assert_eq!(Anchor::on_parent(p, q), Anchor::new(AnchorTarget::Parent { generation_offset: 0 }, p, q));
   assert_eq!(Anchor::on_window(p, q), Anchor::new(AnchorTarget::Window, p, q));
   assert_eq!(Anchor::in_world(p, q), Anchor::new(AnchorTarget::World, p, q));
   assert_eq!(
      Anchor::default(),
      Anchor::new(AnchorTarget::Parent { generation_offset: 0 }, AnchorPoint::Center(0), AnchorPoint::Center(0))
   );
}

#[test]
fn timelines() {
   let timeline = TimelineBuilder::begin()
      .mutator(3)
      .wait_millis(40)
      .interpolation(1, 5, 100)
      .goto(0);
   assert!(timeline == vec![
      TimelineEvent::Mutator(3),
      TimelineEvent::WaitMillis(40),
      TimelineEvent::Interpolation { mutator: 1, num_frames: 5, duration: 100 },
      TimelineEvent::Goto(0),
   ]);
   assert!(TimelineBuilder::begin().terminate() == vec![TimelineEvent::Terminate]);
}

fn comp(text: &str) -> GlyphComponent {
   GlyphComponent::text(text, AppFont::Any, Color::black())
}

#[test]
fn components_pad_and_split() {
   let mut c = comp("ab");
   c.space_front(2);
   c.pad_back("-=", 2);
   assert_eq!(c.text, "  ab-=-=");
   assert_eq!(c.index_of_first_non_space_char(), Some(2));
   assert!(c.contains_non_space());
   assert!(!GlyphComponent::space(3).contains_non_space());
   assert_eq!(GlyphComponent::space(3).text, "   ");
   let rest = c.split_off(4);
   assert_eq!(c.as_str(), "  ab");
   assert_eq!(rest.text, "-=-=");
   c.discard_front(1);
   assert_eq!(c.text, " ab");
   c.discard_back(2);
   assert_eq!(c.text, " ");
   assert_eq!(c.length(), 1);
}

#[test]
fn lines_insert_and_look_up() {
   let mut line = GlyphLine::new_with(comp("a"));
   line.push(comp("d"));
   line.insert_at_index(vec![comp("b"), comp("c")], 1);
   let texts: Vec<String> = line.line.iter().map(|c| c.text.clone()).collect();
   assert_eq!(texts, vec!["a", "b", "c", "d"]);
   line.insert_at_index(vec![comp("e")], 99);
   assert_eq!(line.last_component().unwrap().text, "e");
   assert_eq!(line.get(1).unwrap().text, "b");
   assert!(line.get(5).is_none());
   assert!(GlyphLine::new().last_component().is_none());
   assert_eq!(line.length(), 5);
}

#[test]
fn application_kinds() {
   assert_eq!(RenderSetting::RedrawMode(RedrawMode::FpsLimit(60)).get_type(), RenderSettingType::RedrawMode);
   assert_eq!(ObjectProperty::Health(3).get_type(), ObjectPropertyType::Health);
   assert_eq!(KeyPress::placeholder(), KeyPress::Placeholder);
   assert_eq!(RenderDecree::default(), RenderDecree::Noop);
   assert_eq!(UiStack::new().elements.len(), 0);
}

#[test]
fn events_carry_their_time() {
   let e = GlyphTreeEventInstance::new(GlyphTreeEvent::NoopEvent(4), 17);
   assert_eq!(e.event_type, GlyphTreeEvent::NoopEvent(4));
   assert_eq!(e.event_time_millis, 17);
}
