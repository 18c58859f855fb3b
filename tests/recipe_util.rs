use recipe_book::measurements::Volume;
use recipe_book::recipe::{
    Image, Ingredient, IngredientQuantity, Recipe, RecipeError, Step,
};
use std::str::FromStr;

#[test]
fn fromstr() {
    let base = "8 eggs";
    let mass = Volume::from_str(base);
    println!("{mass:?}");
    println!("{:?}", base.split_once(' ').unwrap().0.parse::<u64>());
}

#[test]
fn measurements() {}

#[test]
fn minimal_document() {
    let r = Recipe::from_str("Tea\n\n---ingredients\n1 cup water\n\n---steps\nBoil it.\n").unwrap();
    assert_eq!(r.title, "Tea");
    assert_eq!(r.image, None);
    assert_eq!(r.introduction, None);
    assert_eq!(
        r.ingredients,
        vec![Ingredient {
            ingredient: "water".to_string(),
            quantity: Some(IngredientQuantity::Volume(Volume::new_metric(236_588))),
        }]
    );
    assert_eq!(r.steps, vec![Step { body: "Boil it.".to_string() }]);
}

#[test]
fn full_document() {
    let doc = "Fried rice\n\nimage: rice.png\n\nA quick dinner.\n\n---ingredients\n2 eggs\n300 g rice\n1 tbsp soy sauce\n\n---steps\nCook the rice.\n\nFry it with the eggs.\n\n";
    let r = Recipe::from_str(doc).unwrap();
    assert_eq!(r.title, "Fried rice");
    assert_eq!(r.image, Some(Image { href: "rice.png".to_string() }));
    assert_eq!(r.introduction, Some("A quick dinner.".to_string()));
    assert_eq!(r.ingredients.len(), 3);
    assert_eq!(r.ingredients[0].ingredient, "2 eggs");
    assert_eq!(r.ingredients[0].quantity, None);
    assert_eq!(r.ingredients[1].ingredient, "rice");
    assert_eq!(r.ingredients[2].ingredient, "soy sauce");
    assert_eq!(
        r.steps,
        vec![
            Step { body: "Cook the rice.".to_string() },
            Step { body: "Fry it with the eggs.".to_string() }
        ]
    );
    let imperial = r.clone().as_imperial();
    assert_eq!(imperial.ingredients[1].render(), "0.7 g rice");
    let back = imperial.as_metric();
    assert_eq!(back, r);
}

#[test]
fn plain_description_has_no_quantity() {
    let i = Ingredient::from_str("plain description").unwrap();
    assert_eq!(i.quantity, None);
    assert_eq!(i.ingredient, "plain description");
}

#[test]
fn empty_ingredient_line() {
    assert_eq!(Ingredient::from_str(""), Err(RecipeError::ExpectedIngredient));
}

#[test]
fn ingredient_with_weight() {
    let i = Ingredient::from_str("10 pounds of eggs").unwrap();
    assert_eq!(i.ingredient, "of eggs");
    assert_eq!(i.render(), "4.5 kg of eggs");
    assert_eq!(i.as_imperial().render(), "10 g of eggs");
}

#[test]
fn rice_without_cup_in_amount_stays_a_name() {
    let i = Ingredient::from_str("2 rice cups").unwrap();
    assert_eq!(i.quantity, None);
    assert_eq!(i.ingredient, "2 rice cups");
}

#[test]
fn missing_steps_gives_no_recipe() {
    let r = Recipe::from_str("Tea\n\n---ingredients\n1 cup water\n\nBoil it.\n");
    assert_eq!(r, Err(RecipeError::ExpectedStepsStart));
}

#[test]
fn missing_title_separator() {
    assert_eq!(Recipe::from_str("Tea"), Err(RecipeError::ExpectedTitle));
}

#[test]
fn image_without_separator() {
    assert_eq!(
        Recipe::from_str("Tea\n\nimage: tea.png"),
        Err(RecipeError::ExpectedImageHref)
    );
}

#[test]
fn introduction_without_separator() {
    assert_eq!(
        Recipe::from_str("Tea\n\nJust tea."),
        Err(RecipeError::ExpectedImageHref)
    );
}

#[test]
fn missing_ingredients_marker() {
    assert_eq!(
        Recipe::from_str("Tea\n\nJust tea.\n\n---steps\nBoil.\n"),
        Err(RecipeError::ExpectedIngredientsStart)
    );
}

#[test]
fn ingredient_list_runs_out() {
    assert_eq!(
        Recipe::from_str("Tea\n\n---ingredients\n1 cup water"),
        Err(RecipeError::UnexpectedEOF("Ingredient".to_string()))
    );
}

#[test]
fn ingredient_display_in_both_systems() {
    let i = Ingredient::from_str("1 cup water").unwrap();
    assert_eq!(i.render(), "236 ml water");
    assert_eq!(i.as_imperial().render(), "1.0 cups water");
}

#[test]
fn steps_marker_too_late_gives_no_recipe() {
    let r = Recipe::from_str("Tea\n\n---ingredients\n1 cup water\n2 g tea\n\nBoil it.\n\n---steps\nPour.\n");
    assert_eq!(r, Err(RecipeError::ExpectedStepsStart));
}
