use course_passing::currency::{Currency, Ledger};
use course_passing::genesis::GenesisConfig;
use course_passing::hashing::{gen_dna, hash_of_course, mix_dna};
use course_passing::pallet::Pallet;
use course_passing::types::{
    Course, CourseId, CourseYear, CurrencyError, Error, Event, ExecContext, BASE_CREDITS,
};

const O1: u64 = 1;
const O2: u64 = 2;
const O3: u64 = 3;

fn ctx(block_number: u64) -> ExecContext {
    ExecContext { random_seed: [7u8; 32], extrinsic_index: Some(1), block_number }
}

fn create(p: &mut Pallet, owner: u64, block_number: u64) -> CourseId {
    assert_eq!(p.create_course(owner, &ctx(block_number)), Ok(()));
    *p.courses_owned(owner).last().unwrap()
}

fn snapshot(p: &Pallet, ids: &[CourseId], accounts: &[u64]) -> (Vec<Option<Course>>, Vec<Vec<CourseId>>, u64, Vec<Event>) {
    (
        ids.iter().map(|id| p.courses(id)).collect(),
        accounts.iter().map(|a| p.courses_owned(*a)).collect(),
        p.count_for_courses(),
        p.events().clone(),
    )
}

fn index_is_consistent(p: &Pallet, ids: &[CourseId], accounts: &[u64]) -> bool {
    for a in accounts {
        for id in p.courses_owned(*a) {
            match p.courses(&id) {
                Some(c) if c.owner == *a => {},
                _ => return false,
            }
        }
    }
    for id in ids {
        if let Some(c) = p.courses(id) {
            if p.courses_owned(c.owner).iter().filter(|x| *x == id).count() != 1 {
                return false;
            }
        }
    }
    true
}

#[test]
fn create_course_mints_with_defaults() {
    let mut p = Pallet::new(3);
    let id = create(&mut p, O1, 5);
    let c = p.courses(&id).unwrap();
    assert_eq!(c.dna, gen_dna(&ctx(5)));
    assert_eq!(c.owner, O1);
    assert_eq!(c.price, None);
    assert_eq!(c.course_year, CourseYear::First);
    assert_eq!(c.credits, BASE_CREDITS);
    assert_eq!(id, hash_of_course(&c));
    assert_eq!(p.count_for_courses(), 1);
    assert_eq!(p.courses_owned(O1), vec![id]);
    assert_eq!(p.events(), &vec![Event::Created(O1, id)]);
}

#[test]
fn mint_uses_given_content() {
    let mut p = Pallet::new(3);
    let dna = [3u8; 16];
    let id = p.mint(O1, Some(dna), Some(CourseYear::Fourth), Some(9), &ctx(1)).unwrap();
    let c = p.courses(&id).unwrap();
    assert_eq!(c, Course { dna, price: None, course_year: CourseYear::Fourth, credits: 9, owner: O1 });
    assert_eq!(id, hash_of_course(&c));
    assert_eq!(p.events(), &vec![Event::Created(O1, id)]);
}

#[test]
fn mint_same_content_twice_fails_course_exists() {
    let mut p = Pallet::new(3);
    let id = p.mint(O1, Some([3u8; 16]), None, None, &ctx(1)).unwrap();
    let before = snapshot(&p, &[id], &[O1]);
    assert_eq!(p.mint(O1, Some([3u8; 16]), None, None, &ctx(2)), Err(Error::CourseExists));
    assert_eq!(snapshot(&p, &[id], &[O1]), before);
}

#[test]
fn minted_ids_are_unique() {
    let mut p = Pallet::new(10);
    let a = create(&mut p, O1, 1);
    let b = create(&mut p, O1, 2);
    let c = create(&mut p, O2, 3);
    assert_ne!(a, b);
    assert_ne!(a, c);
    assert_ne!(b, c);
    assert_eq!(p.count_for_courses(), 3);
}

#[test]
fn mint_over_capacity_fails_and_keeps_list() {
    let mut p = Pallet::new(1);
    let id = create(&mut p, O1, 1);
    let before = snapshot(&p, &[id], &[O1]);
    assert_eq!(p.create_course(O1, &ctx(2)), Err(Error::ExceedMaxCourseOwned));
    assert_eq!(snapshot(&p, &[id], &[O1]), before);
    assert_eq!(p.courses_owned(O1).len(), 1);
}

#[test]
fn set_price_by_owner() {
    let mut p = Pallet::new(3);
    let id = create(&mut p, O1, 1);
    assert_eq!(p.set_price(O1, id, Some(100)), Ok(()));
    assert_eq!(p.courses(&id).unwrap().price, Some(100));
    assert_eq!(p.events().last(), Some(&Event::PriceSet(O1, id, Some(100))));
    assert_eq!(p.set_price(O1, id, None), Ok(()));
    assert_eq!(p.courses(&id).unwrap().price, None);
}

#[test]
fn set_price_errors() {
    let mut p = Pallet::new(3);
    let id = create(&mut p, O1, 1);
    let before = snapshot(&p, &[id], &[O1, O2]);
    assert_eq!(p.set_price(O2, id, Some(5)), Err(Error::NotCourseOwner));
    assert_eq!(p.set_price(O1, [0u8; 32], Some(5)), Err(Error::CourseNotExist));
    assert_eq!(snapshot(&p, &[id], &[O1, O2]), before);
}

#[test]
fn transfer_moves_course_and_clears_price() {
    let mut p = Pallet::new(3);
    let id = create(&mut p, O1, 1);
    let other = create(&mut p, O1, 2);
    p.set_price(O1, id, Some(40)).unwrap();
    assert_eq!(p.transfer(O1, O2, id), Ok(()));
    let c = p.courses(&id).unwrap();
    assert_eq!(c.owner, O2);
    assert_eq!(c.price, None);
    assert_eq!(p.courses_owned(O1), vec![other]);
    assert_eq!(p.courses_owned(O2), vec![id]);
    assert_eq!(p.count_for_courses(), 2);
    assert_eq!(p.events().last(), Some(&Event::Transferred(O1, O2, id)));
    assert!(index_is_consistent(&p, &[id, other], &[O1, O2]));
}

#[test]
fn transfer_swap_removes_from_sender() {
    let mut p = Pallet::new(5);
    let a = create(&mut p, O1, 1);
    let b = create(&mut p, O1, 2);
    let c = create(&mut p, O1, 3);
    assert_eq!(p.transfer(O1, O2, a), Ok(()));
    assert_eq!(p.courses_owned(O1), vec![c, b]);
}

#[test]
fn transfer_errors() {
    let mut p = Pallet::new(1);
    let id = create(&mut p, O1, 1);
    let full = create(&mut p, O2, 2);
    let ids = [id, full];
    let before = snapshot(&p, &ids, &[O1, O2, O3]);
    assert_eq!(p.transfer(O1, O3, [0u8; 32]), Err(Error::CourseNotExist));
    assert_eq!(p.transfer(O2, O3, id), Err(Error::NotCourseOwner));
    assert_eq!(p.transfer(O1, O1, id), Err(Error::TransferToSelf));
    assert_eq!(p.transfer(O1, O2, id), Err(Error::ExceedMaxCourseOwned));
    assert_eq!(snapshot(&p, &ids, &[O1, O2, O3]), before);
}

#[test]
fn transfer_course_to_owner_only_clears_price() {
    let mut p = Pallet::new(1);
    let id = create(&mut p, O1, 1);
    p.set_price(O1, id, Some(9)).unwrap();
    assert_eq!(p.transfer_course_to(&id, O1), Ok(()));
    assert_eq!(p.courses(&id).unwrap().price, None);
    assert_eq!(p.courses_owned(O1), vec![id]);
    assert_eq!(p.transfer_course_to(&[1u8; 32], O2), Err(Error::CourseNotExist));
}

#[test]
fn buy_scenario_moves_course_and_money() {
    let mut p = Pallet::new(3);
    let mut ledger = Ledger::new(1);
    ledger.make_free_balance_be(O1, 500);
    ledger.make_free_balance_be(O2, 1000);
    let x = create(&mut p, O1, 1);
    assert_eq!(p.set_price(O1, x, Some(100)), Ok(()));
    assert_eq!(p.courses(&x).unwrap().price, Some(100));
    assert_eq!(p.buy_course(&mut ledger, O2, x, 100), Ok(()));
    let c = p.courses(&x).unwrap();
    assert_eq!(c.owner, O2);
    assert_eq!(c.price, None);
    assert_eq!(ledger.free_balance(O1), 600);
    assert_eq!(ledger.free_balance(O2), 900);
    assert!(p.courses_owned(O2).contains(&x));
    assert!(!p.courses_owned(O1).contains(&x));
    assert_eq!(p.events().last(), Some(&Event::Bought(O2, O1, x, 100)));
}

#[test]
fn buy_with_low_bid_fails_and_changes_nothing() {
    let mut p = Pallet::new(3);
    let mut ledger = Ledger::new(1);
    ledger.make_free_balance_be(O2, 1000);
    let x = create(&mut p, O1, 1);
    p.set_price(O1, x, Some(100)).unwrap();
    let before = snapshot(&p, &[x], &[O1, O2]);
    assert_eq!(p.buy_course(&mut ledger, O2, x, 50), Err(Error::CourseBidPriceTooLow));
    assert_eq!(snapshot(&p, &[x], &[O1, O2]), before);
    assert_eq!(ledger.free_balance(O1), 0);
    assert_eq!(ledger.free_balance(O2), 1000);
}

#[test]
fn buy_errors() {
    let mut p = Pallet::new(1);
    let mut ledger = Ledger::new(0);
    ledger.make_free_balance_be(O2, 50);
    ledger.make_free_balance_be(O3, 1000);
    let x = create(&mut p, O1, 1);
    let y = create(&mut p, O3, 2);
    let ids = [x, y];
    let before = snapshot(&p, &ids, &[O1, O2, O3]);
    assert_eq!(p.buy_course(&mut ledger, O2, [0u8; 32], 10), Err(Error::CourseNotExist));
    assert_eq!(p.buy_course(&mut ledger, O1, x, 10), Err(Error::BuyerIsCourseOwner));
    assert_eq!(p.buy_course(&mut ledger, O2, x, 10), Err(Error::CourseNotForSale));
    p.set_price(O1, x, Some(100)).unwrap();
    let before_priced = snapshot(&p, &ids, &[O1, O2, O3]);
    assert_ne!(before, before_priced);
    assert_eq!(p.buy_course(&mut ledger, O2, x, 100), Err(Error::NotEnoughBalance));
    assert_eq!(p.buy_course(&mut ledger, O3, x, 100), Err(Error::ExceedMaxCourseOwned));
    assert_eq!(snapshot(&p, &ids, &[O1, O2, O3]), before_priced);
    assert_eq!(ledger.free_balance(O2), 50);
    assert_eq!(ledger.free_balance(O3), 1000);
}

#[test]
fn buy_refused_by_currency_rolls_back() {
    let mut p = Pallet::new(3);
    let mut ledger = Ledger::new(10);
    ledger.make_free_balance_be(O2, 100);
    let x = create(&mut p, O1, 1);
    p.set_price(O1, x, Some(95)).unwrap();
    let before = snapshot(&p, &[x], &[O1, O2]);
    assert_eq!(
        p.buy_course(&mut ledger, O2, x, 95),
        Err(Error::Currency(CurrencyError::KeepAlive))
    );
    assert_eq!(snapshot(&p, &[x], &[O1, O2]), before);
    assert_eq!(ledger.free_balance(O1), 0);
    assert_eq!(ledger.free_balance(O2), 100);
}

#[test]
fn breed_not_owned_fails_not_owner() {
    let mut p = Pallet::new(5);
    let a = create(&mut p, O1, 1);
    let b = create(&mut p, O1, 2);
    let before = snapshot(&p, &[a, b], &[O1, O2]);
    assert_eq!(p.breed_course(O2, a, b, &ctx(3)), Err(Error::NotCourseOwner));
    assert_eq!(snapshot(&p, &[a, b], &[O1, O2]), before);
    assert_eq!(p.count_for_courses(), 2);
}

#[test]
fn breed_errors() {
    let mut p = Pallet::new(5);
    let a = create(&mut p, O1, 1);
    let b = create(&mut p, O2, 2);
    assert_eq!(p.breed_course(O1, [0u8; 32], a, &ctx(3)), Err(Error::CourseNotExist));
    assert_eq!(p.breed_course(O1, a, [0u8; 32], &ctx(3)), Err(Error::CourseNotExist));
    assert_eq!(p.breed_course(O1, a, b, &ctx(3)), Err(Error::NotCourseOwner));
    assert_eq!(p.breed_course(O1, b, a, &ctx(3)), Err(Error::NotCourseOwner));
    assert_eq!(p.breed_dna(&a, &[0u8; 32], &ctx(3)), Err(Error::CourseNotExist));
    assert_eq!(p.count_for_courses(), 2);
}

#[test]
fn breed_mints_child_with_mixed_dna() {
    let mut p = Pallet::new(5);
    let a = p.mint(O1, Some([0x0Fu8; 16]), Some(CourseYear::Third), Some(4), &ctx(1)).unwrap();
    let b = p.mint(O1, Some([0xF0u8; 16]), Some(CourseYear::Second), None, &ctx(1)).unwrap();
    let mask = gen_dna(&ctx(3));
    let expected = mix_dna(&mask, &[0x0Fu8; 16], &[0xF0u8; 16]);
    assert_eq!(p.breed_dna(&a, &b, &ctx(3)), Ok(expected));
    assert_eq!(p.breed_course(O1, a, b, &ctx(3)), Ok(()));
    let child_id = *p.courses_owned(O1).last().unwrap();
    let child = p.courses(&child_id).unwrap();
    assert_eq!(child.dna, expected);
    assert_eq!(child.course_year, CourseYear::First);
    assert_eq!(child.credits, BASE_CREDITS);
    assert_eq!(child.owner, O1);
    assert_eq!(child.price, None);
    assert_eq!(p.count_for_courses(), 3);
    assert_eq!(
        p.events(),
        &vec![Event::Created(O1, a), Event::Created(O1, b), Event::Created(O1, child_id)]
    );
}

#[test]
fn breed_course_with_itself() {
    let mut p = Pallet::new(5);
    let a = p.mint(O1, Some([0x3Cu8; 16]), None, None, &ctx(1)).unwrap();
    assert_eq!(p.breed_dna(&a, &a, &ctx(4)), Ok([0x3Cu8; 16]));
    assert_eq!(p.breed_course(O1, a, a, &ctx(4)), Err(Error::CourseExists));
}

#[test]
fn index_stays_consistent_through_operations() {
    let mut p = Pallet::new(4);
    let mut ledger = Ledger::new(0);
    ledger.make_free_balance_be(O3, 1000);
    let a = create(&mut p, O1, 1);
    let b = create(&mut p, O1, 2);
    let c = create(&mut p, O2, 3);
    p.transfer(O1, O2, b).unwrap();
    p.set_price(O2, c, Some(10)).unwrap();
    p.buy_course(&mut ledger, O3, c, 10).unwrap();
    let d = create(&mut p, O1, 4);
    p.breed_course(O1, a, d, &ctx(9)).unwrap();
    let child = *p.courses_owned(O1).last().unwrap();
    let ids = [a, b, c, d, child];
    assert!(index_is_consistent(&p, &ids, &[O1, O2, O3]));
    assert_eq!(p.courses_owned(O1), vec![a, d, child]);
    assert_eq!(p.courses_owned(O2), vec![b]);
    assert_eq!(p.courses_owned(O3), vec![c]);
    assert_eq!(p.count_for_courses(), 5);
}

#[test]
fn genesis_seeds_in_order_and_skips_failures() {
    let mut p = Pallet::new(2);
    let config = GenesisConfig {
        courses: vec![
            (O1, [1u8; 16], CourseYear::First, 0),
            (O1, [1u8; 16], CourseYear::First, 0),
            (O1, [2u8; 16], CourseYear::Second, 3),
            (O1, [4u8; 16], CourseYear::Third, 1),
            (O2, [5u8; 16], CourseYear::Fourth, 2),
        ],
    };
    config.build(&mut p, &ctx(0));
    assert_eq!(p.count_for_courses(), 3);
    let owned = p.courses_owned(O1);
    assert_eq!(owned.len(), 2);
    assert_eq!(p.courses(&owned[0]).unwrap().dna, [1u8; 16]);
    let second = p.courses(&owned[1]).unwrap();
    assert_eq!(second.dna, [2u8; 16]);
    assert_eq!(second.course_year, CourseYear::Second);
    assert_eq!(second.credits, 3);
    assert_eq!(p.courses(&p.courses_owned(O2)[0]).unwrap().course_year, CourseYear::Fourth);
    assert_eq!(
        p.events(),
        &vec![
            Event::Created(O1, owned[0]),
            Event::Created(O1, owned[1]),
            Event::Created(O2, p.courses_owned(O2)[0]),
        ]
    );
}

#[test]
fn genesis_default_is_empty() {
    let mut p = Pallet::new(2);
    let config = GenesisConfig::default();
    assert!(config.courses.is_empty());
    config.build(&mut p, &ctx(0));
    assert_eq!(p.count_for_courses(), 0);
    assert_eq!(p.max_courses_owned(), 2);
}

#[test]
fn buy_refused_for_recipient_overflow_rolls_back() {
    let mut p = Pallet::new(3);
    let mut ledger = Ledger::new(0);
    ledger.make_free_balance_be(O1, u128::MAX);
    ledger.make_free_balance_be(O2, 100);
    let x = create(&mut p, O1, 1);
    p.set_price(O1, x, Some(10)).unwrap();
    let before = snapshot(&p, &[x], &[O1, O2]);
    assert_eq!(
        p.buy_course(&mut ledger, O2, x, 10),
        Err(Error::Currency(CurrencyError::Overflow))
    );
    assert_eq!(snapshot(&p, &[x], &[O1, O2]), before);
    assert_eq!(ledger.free_balance(O1), u128::MAX);
    assert_eq!(ledger.free_balance(O2), 100);
}
