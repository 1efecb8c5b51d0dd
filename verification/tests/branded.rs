use core::marker::PhantomData;
use generativity_pattern_rs::branded_vec::BrandedVec;
use generativity_pattern_rs::generative_lifetimes;
use generativity_pattern_rs::min_generativity::Guard;
use generativity_pattern_rs::min_generativity::Id;
use generativity_pattern_rs::min_generativity::LifetimeBrand;

#[test]
fn branded_vec_example() {
    let mut vec: Vec<u8> = vec![0, 1, 2];
    vec.push(3);
    println!("{vec:?}"); // Prints [0, 1, 2, 3]

    // an immutable reference into the vector
    let v0: &u8 = &vec[0];
    println!("{v0:?}");

    // a mutable reference into the vector
    let v1: &mut u8 = &mut vec[1];
    *v1 += 1;
    println!("{vec:?}"); // Prints [0, 2, 2, 3]
    assert_eq!(vec, [0, 2, 2, 3]);

    let vec1: Vec<u8> = vec![10, 11];
    let vec2: Vec<u8> = vec![20, 21];
    BrandedVec::new(vec1, move |mut bvec1: BrandedVec<u8>| {
        bvec1.push(12);
        let i1 = bvec1.push(13);
        let _idx = bvec1.get_index(0).unwrap();
        BrandedVec::new(vec2, move |mut bvec2: BrandedVec<u8>| {
            let i2 = bvec2.push(22);
            println!("{:?}", bvec2.get(i2)); // No bound check! Prints 22
            assert_eq!(*bvec2.get(i2), 22);
            *bvec2.get_mut(i2) -= 1; // No bound check!
            println!("{:?}", bvec2.get(i2)); // Prints 21
            assert_eq!(*bvec2.get(i2), 21);
            println!("{:?}", bvec1.get(i1)); // Prints 13
            assert_eq!(*bvec1.get(i1), 13);
        });
    });
}

#[test]
fn a_branded_vec_hands_out_the_indices_it_has() {
    let total = BrandedVec::new(vec![5u32, 6, 7], |mut branded: BrandedVec<u32>| {
        assert!(branded.get_index(3).is_none());
        let first = branded.get_index(0).unwrap();
        let last = branded.get_index(2).unwrap();
        let pushed = branded.push(8);
        assert!(branded.get_index(3).is_some());
        assert!(branded.get_index(4).is_none());
        *branded.get_mut(first) += 10;
        *branded.get(first) + *branded.get(last) + *branded.get(pushed)
    });
    assert_eq!(total, 15 + 7 + 8);
}

#[test]
fn generative_lifetime() {
    let place1: Id = PhantomData;
    let _brand1 = LifetimeBrand::new(&place1);
    let id1 = Guard(place1);
    let place2: Id = PhantomData;
    let _brand2 = LifetimeBrand::new(&place2);
    let id2 = Guard(place2);
    assert_eq!(id1, id1);
    assert_eq!(id2, id2);
}

#[test]
fn a_guard_gives_its_id() {
    let place: Id = PhantomData;
    let _brand = LifetimeBrand::new(&place);
    let guard = Guard(place);
    let id: Id = guard.into();
    assert_eq!(id, place);
}

#[test]
fn an_id_equals_itself() {
    let place = generative_lifetimes::Id(PhantomData);
    let _brand = generative_lifetimes::LifetimeBrand::new(&place);
    assert_eq!(place, place);
}
