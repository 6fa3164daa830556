use c0nst::convert::{convert_stream, Convert, Target};
use c0nst::token::{Delimiter, Spacing, Token};
use proc_macro2::{Group, Ident, Literal, Punct, TokenStream, TokenTree};

fn lower(stream: TokenStream) -> Vec<Token> {
    stream
        .into_iter()
        .map(|tree| match tree {
            TokenTree::Ident(i) => Token::Ident(i.to_string()),
            TokenTree::Punct(p) => Token::Punct(
                p.as_char(),
                match p.spacing() {
                    proc_macro2::Spacing::Joint => Spacing::Joint,
                    proc_macro2::Spacing::Alone => Spacing::Alone,
                },
            ),
            TokenTree::Literal(l) => Token::Literal(l.to_string()),
            TokenTree::Group(g) => Token::Group(
                match g.delimiter() {
                    proc_macro2::Delimiter::Parenthesis => Delimiter::Parenthesis,
                    proc_macro2::Delimiter::Brace => Delimiter::Brace,
                    proc_macro2::Delimiter::Bracket => Delimiter::Bracket,
                    proc_macro2::Delimiter::None => Delimiter::Invisible,
                },
                lower(g.stream()),
            ),
        })
        .collect()
}

fn raise(tokens: Vec<Token>) -> TokenStream {
    tokens
        .into_iter()
        .map(|token| match token {
            Token::Ident(name) => match name.strip_prefix("r#") {
                Some(raw) => TokenTree::Ident(Ident::new_raw(raw, proc_macro2::Span::call_site())),
                None => TokenTree::Ident(Ident::new(&name, proc_macro2::Span::call_site())),
            },
            Token::Punct(c, spacing) => TokenTree::Punct(Punct::new(
                c,
                match spacing {
                    Spacing::Joint => proc_macro2::Spacing::Joint,
                    Spacing::Alone => proc_macro2::Spacing::Alone,
                },
            )),
            Token::Literal(text) => TokenTree::Literal(text.parse::<Literal>().expect("literal")),
            Token::Group(delimiter, inner) => TokenTree::Group(Group::new(
                match delimiter {
                    Delimiter::Parenthesis => proc_macro2::Delimiter::Parenthesis,
                    Delimiter::Brace => proc_macro2::Delimiter::Brace,
                    Delimiter::Bracket => proc_macro2::Delimiter::Bracket,
                    Delimiter::Invisible => proc_macro2::Delimiter::None,
                },
                raise(inner),
            )),
        })
        .collect()
}

fn squeeze(s: &str) -> String {
    s.replace(&[' ', '\n', '\t'][..], "")
}

fn run(input: &str, target: Target) -> String {
    let stream: TokenStream = input.parse().expect("Failed to parse input");
    squeeze(&raise(lower(stream).convert(target)).to_string())
}

fn check(input: &str, nightly_expected: &str, stable_expected: &str) {
    assert_eq!(run(input, Target::Nightly), squeeze(nightly_expected));
    assert_eq!(run(input, Target::Stable), squeeze(stable_expected));
}

#[test]
fn basic_items() {
    check(
        "const fn test() -> i32 { 42 }",
        "const fn test() -> i32 { 42 }",
        "const fn test() -> i32 { 42 }",
    );
}

#[test]
fn basic_trait() {
    check(
        "c0nst trait MyTrait { fn method(&self) -> i32; }",
        "const trait MyTrait { fn method(&self) -> i32; }",
        "trait MyTrait { fn method(&self) -> i32; }",
    );
}

#[test]
fn basic_impl() {
    check(
        "impl c0nst MyTrait for MyType { fn method(&self) -> i32 { 42 } }",
        "impl const MyTrait for MyType { fn method(&self) -> i32 { 42 } }",
        "impl MyTrait for MyType { fn method(&self) -> i32 { 42 } }",
    );
}

#[test]
fn comprehensive_wrapper_traits() {
    check(
        "fn test<T>() where T: c0nst Trait + [c0nst] Other {}",
        "fn test<T>() where T: const Trait + [const] Other {}",
        "fn test<T>() where T: Trait + Other {}",
    );
}

#[test]
fn bare_function_types() {
    check(
        "type Callback = fn(impl c0nst Send + [c0nst] Sync);",
        "type Callback = fn(impl const Send + [const] Sync);",
        "type Callback = fn(impl Send + Sync);",
    );
}

#[test]
fn impl_self_type() {
    check(
        "impl c0nst Clone for MyType { fn clone(&self) -> Self { todo!() } }",
        "impl const Clone for MyType { fn clone(&self) -> Self { todo!() } }",
        "impl Clone for MyType { fn clone(&self) -> Self { todo!() } }",
    );
}

#[test]
fn array_types() {
    check(
        "type ArrayType = [impl c0nst Send; 10];",
        "type ArrayType = [impl const Send; 10];",
        "type ArrayType = [impl Send; 10];",
    );
}

#[test]
fn slice_types() {
    check(
        "type SliceType = [impl c0nst Send];",
        "type SliceType = [impl const Send];",
        "type SliceType = [impl Send];",
    );
}

#[test]
fn reference_types() {
    check(
        "type RefType = &impl c0nst Send;",
        "type RefType = &impl const Send;",
        "type RefType = &impl Send;",
    );
}

#[test]
fn mutable_reference_types() {
    check(
        "type MutRefType = &mut impl c0nst Send;",
        "type MutRefType = &mut impl const Send;",
        "type MutRefType = &mut impl Send;",
    );
}

#[test]
fn tuple_types() {
    check(
        "type TupleType = (impl c0nst Send, impl [c0nst] Sync);",
        "type TupleType = (impl const Send, impl [const] Sync);",
        "type TupleType = (impl Send, impl Sync);",
    );
}

#[test]
fn parenthesized_types() {
    check(
        "type ParenType = (impl c0nst Send);",
        "type ParenType = (impl const Send);",
        "type ParenType = (impl Send);",
    );
}

#[test]
fn trait_object_types() {
    check(
        "type TraitObjType = dyn c0nst Send + [c0nst] Sync;",
        "type TraitObjType = dyn const Send + [const] Sync;",
        "type TraitObjType = dyn Send + Sync;",
    );
}

#[test]
fn non_type_generic_arguments() {
    check(
        "fn test<const N: usize>() -> [i32; N] { [0; N] }",
        "fn test<const N: usize>() -> [i32; N] { [0; N] }",
        "fn test<const N: usize>() -> [i32; N] { [0; N] }",
    );
}

#[test]
fn lifetime_generic_arguments() {
    check(
        "fn test<'a, T>() -> &'a T { todo!() }",
        "fn test<'a, T>() -> &'a T { todo!() }",
        "fn test<'a, T>() -> &'a T { todo!() }",
    );
}

#[test]
fn multiple_constraints_in_where() {
    check(
        "fn test<T>() where T: c0nst Clone + c0nst Send + [c0nst] Sync {}",
        "fn test<T>() where T: const Clone + const Send + [const] Sync {}",
        "fn test<T>() where T: Clone + Send + Sync {}",
    );
}

#[test]
fn lifetime_arguments_only() {
    check(
        "fn test<'a>() -> &'a str { \"\" }",
        "fn test<'a>() -> &'a str { \"\" }",
        "fn test<'a>() -> &'a str { \"\" }",
    );
}

#[test]
fn const_arguments_only() {
    check(
        "fn test<const N: usize>() -> [u8; N] { [0; N] }",
        "fn test<const N: usize>() -> [u8; N] { [0; N] }",
        "fn test<const N: usize>() -> [u8; N] { [0; N] }",
    );
}

#[test]
fn bare_fn_with_named_params() {
    check(
        "type NamedFn = fn(x: impl c0nst Send, y: &dyn [c0nst] Sync) -> i32;",
        "type NamedFn = fn(x: impl const Send, y: &dyn [const] Sync) -> i32;",
        "type NamedFn = fn(x: impl Send, y: &dyn Sync) -> i32;",
    );
}

#[test]
fn impl_without_trait() {
    check(
        "impl c0nst MyStruct { fn new() -> Self { todo!() } }",
        "impl const MyStruct { fn new() -> Self { todo!() } }",
        "impl MyStruct { fn new() -> Self { todo!() } }",
    );
}

#[test]
fn impl_with_negative_trait() {
    check(
        "impl !Send for MyType {}",
        "impl !Send for MyType {}",
        "impl !Send for MyType {}",
    );
}

#[test]
fn comprehensive_generics() {
    check(
        "c0nst fn test<T: c0nst Clone + [c0nst] Send + c0nst From<u64>>() -> T where T: c0nst Default { T::default() }",
        "const fn test<T: const Clone + [const] Send + const From<u64>>() -> T where T: const Default { T::default() }",
        "fn test<T: Clone + Send + From<u64>>() -> T where T: Default { T::default() }",
    );
}

#[test]
fn complex_with_modifiers() {
    check(
        "#[derive(Debug)] pub c0nst unsafe fn test<'a, const N: usize, T: Clone + c0nst Send>() -> Result<T, String> where T: c0nst Default { Ok(T::default()) }",
        "#[derive(Debug)] pub const unsafe fn test<'a, const N: usize, T: Clone + const Send>() -> Result<T, String> where T: const Default { Ok(T::default()) }",
        "#[derive(Debug)] pub unsafe fn test<'a, const N: usize, T: Clone + Send>() -> Result<T, String> where T: Default { Ok(T::default()) }",
    );
}

#[test]
fn trait_methods() {
    check(
        "trait MyTrait { c0nst fn method(&self) -> i32 { 42 } }",
        "trait MyTrait { const fn method(&self) -> i32 { 42 } }",
        "trait MyTrait { fn method(&self) -> i32 { 42 } }",
    );
}

#[test]
fn impl_methods() {
    check(
        "impl MyTrait for i32 { c0nst fn method(&self) -> i32 { 42 } }",
        "impl MyTrait for i32 { const fn method(&self) -> i32 { 42 } }",
        "impl MyTrait for i32 { fn method(&self) -> i32 { 42 } }",
    );
}

#[test]
fn generic_impl_comprehensive() {
    check(
        "impl<T: c0nst Clone> c0nst From<T> for MyType<T> where T: [c0nst] Send { fn from(t: T) -> Self { MyType(t) } }",
        "impl<T: const Clone> const From<T> for MyType<T> where T: [const] Send { fn from(t: T) -> Self { MyType(t) } }",
        "impl<T: Clone> From<T> for MyType<T> where T: Send { fn from(t: T) -> Self { MyType(t) } }",
    );
}

#[test]
fn struct_comprehensive() {
    check(
        "struct MyStruct<T: Clone + c0nst Send, U: [c0nst] Sync> where T: c0nst Default { t: T, u: U }",
        "struct MyStruct<T: Clone + const Send, U: [const] Sync> where T: const Default { t: T, u: U }",
        "struct MyStruct<T: Clone + Send, U: Sync> where T: Default { t: T, u: U }",
    );
}

#[test]
fn tuple_struct() {
    check(
        "struct MyStruct<T: c0nst Clone>(T);",
        "struct MyStruct<T: const Clone>(T);",
        "struct MyStruct<T: Clone>(T);",
    );
}

#[test]
fn enum_comprehensive() {
    check(
        "enum MyEnum<T: c0nst Clone + [c0nst] Send> where T: c0nst Default { Variant(T), Other }",
        "enum MyEnum<T: const Clone + [const] Send> where T: const Default { Variant(T), Other }",
        "enum MyEnum<T: Clone + Send> where T: Default { Variant(T), Other }",
    );
}

#[test]
fn union_with_bounds() {
    check(
        "union MyUnion<T: c0nst Copy> where T: c0nst Clone { field: T }",
        "union MyUnion<T: const Copy> where T: const Clone { field: T }",
        "union MyUnion<T: Copy> where T: Clone { field: T }",
    );
}

#[test]
fn type_alias_comprehensive() {
    check(
        "type MyType<T: c0nst Clone + [c0nst] Send> where T: c0nst Default = Vec<T>;",
        "type MyType<T: const Clone + [const] Send> where T: const Default = Vec<T>;",
        "type MyType<T: Clone + Send> where T: Default = Vec<T>;",
    );
}

#[test]
fn async_const_ordering() {
    check(
        "const async fn test() -> i32 { 42 }",
        "const async fn test() -> i32 { 42 }",
        "const async fn test() -> i32 { 42 }",
    );
}

#[test]
fn unsupported_const_item() {
    check(
        "const MY_CONST: i32 = 42;",
        "const MY_CONST: i32 = 42;",
        "const MY_CONST: i32 = 42;",
    );
}

#[test]
fn unsupported_static_item() {
    check(
        "static MY_STATIC: &str = \"hello\";",
        "static MY_STATIC: &str = \"hello\";",
        "static MY_STATIC: &str = \"hello\";",
    );
}

#[test]
fn unsupported_use_item() {
    check(
        "use std::collections::HashMap;",
        "use std::collections::HashMap;",
        "use std::collections::HashMap;",
    );
}

#[test]
fn unsupported_extern_crate() {
    check(
        "extern crate serde;",
        "extern crate serde;",
        "extern crate serde;",
    );
}

#[test]
fn unsupported_macro_rules() {
    check(
        "macro_rules! my_macro { () => {}; }",
        "macro_rules! my_macro { () => {}; }",
        "macro_rules! my_macro { () => {}; }",
    );
}

#[test]
fn unsupported_module_item() {
    check(
        "mod my_module { fn test() {} }",
        "mod my_module { fn test() {} }",
        "mod my_module { fn test() {} }",
    );
}

#[test]
fn impl_item_type_alias() {
    check(
        "impl MyTrait for MyType { type AssocType = i32; }",
        "impl MyTrait for MyType { type AssocType = i32; }",
        "impl MyTrait for MyType { type AssocType = i32; }",
    );
}

#[test]
fn trait_item_type_alias() {
    check(
        "trait MyTrait { type AssocType; }",
        "trait MyTrait { type AssocType; }",
        "trait MyTrait { type AssocType; }",
    );
}

#[test]
fn trait_method_with_default() {
    check(
        "trait MyTrait { c0nst fn method(&self) -> i32 { 42 } }",
        "trait MyTrait { const fn method(&self) -> i32 { 42 } }",
        "trait MyTrait { fn method(&self) -> i32 { 42 } }",
    );
}

#[test]
fn lifetime_bounds() {
    check(
        "fn test<'a, T: 'a>() where T: 'a {}",
        "fn test<'a, T: 'a>() where T: 'a {}",
        "fn test<'a, T: 'a>() where T: 'a {}",
    );
}

#[test]
fn multi_segment_path() {
    check(
        "fn test<T: std::marker::Send>() {}",
        "fn test<T: std::marker::Send>() {}",
        "fn test<T: std::marker::Send>() {}",
    );
}

#[test]
fn trait_with_supertraits() {
    check(
        "trait MyTrait: Clone + Send { fn method(&self); }",
        "trait MyTrait: Clone + Send { fn method(&self); }",
        "trait MyTrait: Clone + Send { fn method(&self); }",
    );
}

#[test]
fn single_where_predicate() {
    check(
        "struct MyStruct<T> where T: Clone { field: T }",
        "struct MyStruct<T> where T: Clone { field: T }",
        "struct MyStruct<T> where T: Clone { field: T }",
    );
}

#[test]
fn multiple_where_predicates() {
    check(
        "struct MyStruct<T, U> where T: Clone, U: Send { t: T, u: U }",
        "struct MyStruct<T, U> where T: Clone, U: Send { t: T, u: U }",
        "struct MyStruct<T, U> where T: Clone, U: Send { t: T, u: U }",
    );
}

#[test]
fn lifetime_where_predicates() {
    check(
        "fn test<'a, 'b>() where 'a: 'b {}",
        "fn test<'a, 'b>() where 'a: 'b {}",
        "fn test<'a, 'b>() where 'a: 'b {}",
    );
}

#[test]
fn mod_without_content() {
    check(
        "mod empty;",
        "mod empty;",
        "mod empty;",
    );
}

#[test]
fn impl_return() {
    check(
        "c0nst fn foo() -> impl c0nst Into<usize> { 8usize }",
        "const fn foo() -> impl const Into<usize> { 8usize }",
        "fn foo() -> impl Into<usize> { 8usize }",
    );
}

#[test]
fn associated_type_bounds() {
    check(
        "fn test<T>() where T::Item: c0nst Send {}",
        "fn test<T>() where T::Item: const Send {}",
        "fn test<T>() where T::Item: Send {}",
    );
}

#[test]
fn trait_with_simple_associated_types() {
    check(
        "trait MyTrait { type Item; }",
        "trait MyTrait { type Item; }",
        "trait MyTrait { type Item; }",
    );
}

#[test]
fn impl_with_simple_associated_types() {
    check(
        "impl MyTrait for MyType { type Item = String; }",
        "impl MyTrait for MyType { type Item = String; }",
        "impl MyTrait for MyType { type Item = String; }",
    );
}

#[test]
fn parenthesized_path_args() {
    check(
        "type FnType = dyn Fn(i32) -> i32;",
        "type FnType = dyn Fn(i32) -> i32;",
        "type FnType = dyn Fn(i32) -> i32;",
    );
}

#[test]
fn lifetime_in_associated_type() {
    check(
        "fn test<'a, T>() where T: Iterator<Item = &'a str> {}",
        "fn test<'a, T>() where T: Iterator<Item = &'a str> {}",
        "fn test<'a, T>() where T: Iterator<Item = &'a str> {}",
    );
}

#[test]
fn generic_arg_const() {
    check(
        "fn test<const N: usize>() {}",
        "fn test<const N: usize>() {}",
        "fn test<const N: usize>() {}",
    );
}

#[test]
fn generic_arg_lifetime() {
    check(
        "fn test<'a>() {}",
        "fn test<'a>() {}",
        "fn test<'a>() {}",
    );
}

#[test]
fn generic_arg_type() {
    check(
        "fn test<T: c0nst Clone>() {}",
        "fn test<T: const Clone>() {}",
        "fn test<T: Clone>() {}",
    );
}

#[test]
fn generic_arg_type_with_constraint() {
    check(
        "struct Foo<T: c0nst Default>(T);",
        "struct Foo<T: const Default>(T);",
        "struct Foo<T: Default>(T);",
    );
}

#[test]
fn complex_generic_args() {
    check(
        "fn test<T, U>() where T: c0nst Clone, U: c0nst Default {}",
        "fn test<T, U>() where T: const Clone, U: const Default {}",
        "fn test<T, U>() where T: Clone, U: Default {}",
    );
}

#[test]
fn nested_generic_types() {
    check(
        "type VecType = Vec<Box<String>>;",
        "type VecType = Vec<Box<String>>;",
        "type VecType = Vec<Box<String>>;",
    );
}

#[test]
fn type_path_with_generics() {
    check(
        "type MyPath = std::collections::HashMap<String, usize>;",
        "type MyPath = std::collections::HashMap<String, usize>;",
        "type MyPath = std::collections::HashMap<String, usize>;",
    );
}

#[test]
fn type_path_nested_generics() {
    check(
        "type ComplexPath = Vec<Option<String>>;",
        "type ComplexPath = Vec<Option<String>>;",
        "type ComplexPath = Vec<Option<String>>;",
    );
}

#[test]
fn type_path_with_multiple_segments() {
    check(
        "type FullyQualified = std::sync::Arc<String>;",
        "type FullyQualified = std::sync::Arc<String>;",
        "type FullyQualified = std::sync::Arc<String>;",
    );
}

#[test]
fn associated_type_in_generics() {
    check(
        "fn test<T: Iterator<Item = String>>() {}",
        "fn test<T: Iterator<Item = String>>() {}",
        "fn test<T: Iterator<Item = String>>() {}",
    );
}

#[test]
fn associated_type_with_complex_type() {
    check(
        "fn test<T: Iterator<Item = Box<String>>>() {}",
        "fn test<T: Iterator<Item = Box<String>>>() {}",
        "fn test<T: Iterator<Item = Box<String>>>() {}",
    );
}

#[test]
fn multiple_associated_types() {
    check(
        "fn test<T: Iterator<Item = String> + ExactSizeIterator<Item = String>>() {}",
        "fn test<T: Iterator<Item = String> + ExactSizeIterator<Item = String>>() {}",
        "fn test<T: Iterator<Item = String> + ExactSizeIterator<Item = String>>() {}",
    );
}

#[test]
fn associated_type_with_lifetime() {
    check(
        "fn test<'a, T: Iterator<Item = &'a str>>() {}",
        "fn test<'a, T: Iterator<Item = &'a str>>() {}",
        "fn test<'a, T: Iterator<Item = &'a str>>() {}",
    );
}

#[test]
fn impl_trait_in_associated_type() {
    check(
        "trait MyTrait { type Output = impl Clone; }",
        "trait MyTrait { type Output = impl Clone; }",
        "trait MyTrait { type Output = impl Clone; }",
    );
}

#[test]
fn complex_associated_type_bound() {
    check(
        "fn test<T>() where T: Iterator, T::Item: c0nst Clone {}",
        "fn test<T>() where T: Iterator, T::Item: const Clone {}",
        "fn test<T>() where T: Iterator, T::Item: Clone {}",
    );
}

#[test]
fn function_pointer_parenthesized() {
    check(
        "type FnPointer = fn(i32, String) -> usize;",
        "type FnPointer = fn(i32, String) -> usize;",
        "type FnPointer = fn(i32, String) -> usize;",
    );
}

#[test]
fn const_generic_argument() {
    check(
        "type Array<const N: usize> = [i32; N];",
        "type Array<const N: usize> = [i32; N];",
        "type Array<const N: usize> = [i32; N];",
    );
}

#[test]
fn associated_const_argument() {
    check(
        "fn test<T>() where T: IntoIterator {}",
        "fn test<T>() where T: IntoIterator {}",
        "fn test<T>() where T: IntoIterator {}",
    );
}

#[test]
fn explicit_assoc_type_syntax() {
    check(
        "fn test<T: Iterator<Item=String>>() {}",
        "fn test<T: Iterator<Item=String>>() {}",
        "fn test<T: Iterator<Item=String>>() {}",
    );
}

#[test]
fn assoc_type_with_const_bound() {
    check(
        "fn test<T: Iterator<Item: c0nst Clone>>() {}",
        "fn test<T: Iterator<Item: const Clone>>() {}",
        "fn test<T: Iterator<Item: Clone>>() {}",
    );
}

#[test]
fn test_assoc_type_transformation() {
    check(
        "fn generic_with_assoc<T: Iterator<Item = impl c0nst Clone>>() {}",
        "fn generic_with_assoc<T: Iterator<Item = impl const Clone>>() {}",
        "fn generic_with_assoc<T: Iterator<Item = impl Clone>>() {}",
    );
}

#[test]
fn simple_impl_trait_const() {
    check(
        "fn test() -> impl c0nst Clone { 42i32 }",
        "fn test() -> impl const Clone { 42i32 }",
        "fn test() -> impl Clone { 42i32 }",
    );
}

#[test]
fn function_pointer_with_parenthesized_args() {
    check(
        "type FnPtr = dyn Fn(i32) -> String;",
        "type FnPtr = dyn Fn(i32) -> String;",
        "type FnPtr = dyn Fn(i32) -> String;",
    );
}

#[test]
fn nested_const_in_where_clause_assoc_type() {
    check(
        "fn test<T>() where T: Iterator, T::Item: Clone + c0nst Send {}",
        "fn test<T>() where T: Iterator, T::Item: Clone + const Send {}",
        "fn test<T>() where T: Iterator, T::Item: Clone + Send {}",
    );
}

#[test]
fn associated_const_in_generics() {
    check(
        "type T = Vec<{MyTrait::CONST}>;",
        "type T = Vec<{MyTrait::CONST}>;",
        "type T = Vec<{MyTrait::CONST}>;",
    );
}

#[test]
fn closure_param_types() {
    check(
        "fn test() { let _closure = |x: impl c0nst Send| x; }",
        "fn test() { let _closure = |x: impl const Send| x; }",
        "fn test() { let _closure = |x: impl Send| x; }",
    );
}

#[test]
fn box_dyn_trait_bounds() {
    check(
        "type BoxedTrait = Box<dyn c0nst Send + c0nst Sync>;",
        "type BoxedTrait = Box<dyn const Send + const Sync>;",
        "type BoxedTrait = Box<dyn Send + Sync>;",
    );
}

#[test]
fn nested_generic_complex() {
    check(
        "type Complex = HashMap<String, Vec<Box<dyn c0nst Send>>>;",
        "type Complex = HashMap<String, Vec<Box<dyn const Send>>>;",
        "type Complex = HashMap<String, Vec<Box<dyn Send>>>;",
    );
}

#[test]
fn function_pointer_return_impl() {
    check(
        "type FnPtr = fn() -> impl c0nst Clone;",
        "type FnPtr = fn() -> impl const Clone;",
        "type FnPtr = fn() -> impl Clone;",
    );
}

#[test]
fn higher_ranked_trait_bounds() {
    check(
        "fn test<F>() where F: for<'a> Fn(&'a str) + c0nst Send {}",
        "fn test<F>() where F: for<'a> Fn(&'a str) + const Send {}",
        "fn test<F>() where F: for<'a> Fn(&'a str) + Send {}",
    );
}

#[test]
fn raw_pointer_types() {
    check(
        "type RawPtr = *const dyn c0nst Send;",
        "type RawPtr = *const dyn const Send;",
        "type RawPtr = *const dyn Send;",
    );
}

#[test]
fn async_return_bounds() {
    check(
        "c0nst async fn test() -> impl c0nst Send + c0nst Future<Output = i32> { async { 42 } }",
        "const async fn test() -> impl const Send + const Future<Output = i32> { async { 42 } }",
        "async fn test() -> impl Send + Future<Output = i32> { async { 42 } }",
    );
}

#[test]
fn associated_type_projection() {
    check(
        "fn test<T>() where <T as Iterator>::Item: c0nst Clone {}",
        "fn test<T>() where <T as Iterator>::Item: const Clone {}",
        "fn test<T>() where <T as Iterator>::Item: Clone {}",
    );
}

#[test]
fn nested_closure_bounds() {
    check(
        "fn test() { let _f = || -> impl c0nst Clone { 42 }; }",
        "fn test() { let _f = || -> impl const Clone { 42 }; }",
        "fn test() { let _f = || -> impl Clone { 42 }; }",
    );
}

#[test]
fn pin_box_future() {
    check(
        "type PinnedFuture = Pin<Box<dyn c0nst Future<Output = String>>>;",
        "type PinnedFuture = Pin<Box<dyn const Future<Output = String>>>;",
        "type PinnedFuture = Pin<Box<dyn Future<Output = String>>>;",
    );
}

#[test]
fn trait_object_with_lifetime() {
    check(
        "type TraitObj<'a> = &'a (dyn c0nst Send + c0nst Sync);",
        "type TraitObj<'a> = &'a (dyn const Send + const Sync);",
        "type TraitObj<'a> = &'a (dyn Send + Sync);",
    );
}

#[test]
fn complex_where_clause_projection() {
    check(
        "fn test<T>() where T::Output: c0nst Into<String> + c0nst Send {}",
        "fn test<T>() where T::Output: const Into<String> + const Send {}",
        "fn test<T>() where T::Output: Into<String> + Send {}",
    );
}

#[test]
fn nested_impl_trait_bounds() {
    check(
        "type NestedImpl = Box<dyn Fn() -> impl c0nst Iterator<Item = impl c0nst Clone>>;",
        "type NestedImpl = Box<dyn Fn() -> impl const Iterator<Item = impl const Clone>>;",
        "type NestedImpl = Box<dyn Fn() -> impl Iterator<Item = impl Clone>>;",
    );
}

#[test]
fn const_block() {
    check(
        "c0nst { 32 }",
        "const { 32 }",
        "{ 32 }",
    );
}

#[test]
fn const_destruct() {
    check(
        "c0nst trait MyTrait { type Foo: c0nst Destruct; }",
        "const trait MyTrait { type Foo: const core::marker::Destruct; }",
        "trait MyTrait { type Foo; }",
    );
}

#[test]
fn maybe_const_destruct() {
    check(
        "c0nst trait MyTrait { type Foo: [c0nst] Destruct; }",
        "const trait MyTrait { type Foo: [const] core::marker::Destruct; }",
        "trait MyTrait { type Foo; }",
    );
}

#[test]
fn trailing_const_destruct() {
    check(
        "c0nst trait MyTrait { type Foo: Clone + c0nst Destruct; }",
        "const trait MyTrait { type Foo: Clone + const core::marker::Destruct; }",
        "trait MyTrait { type Foo: Clone; }",
    );
}

#[test]
fn trailing_maybe_const_destruct() {
    check(
        "c0nst trait MyTrait { type Foo: Clone + [c0nst] Destruct; }",
        "const trait MyTrait { type Foo: Clone + [const] core::marker::Destruct; }",
        "trait MyTrait { type Foo: Clone; }",
    );
}

#[test]
fn destruct_bound_single() {
    check(
        "impl<T: [c0nst] Destruct> MyTrait for T {}",
        "impl<T: [const] core::marker::Destruct> MyTrait for T {}",
        "impl<T> MyTrait for T {}",
    );
}

#[test]
fn destruct_bound_multiple_first() {
    check(
        "impl<T: [c0nst] Destruct + Clone + Copy> MyTrait for T {}",
        "impl<T: [const] core::marker::Destruct + Clone + Copy> MyTrait for T {}",
        "impl<T: Clone + Copy> MyTrait for T {}",
    );
}

#[test]
fn destruct_bound_multiple_middle() {
    check(
        "impl<T: Copy + [c0nst] Destruct + Clone> MyTrait for T {}",
        "impl<T: Copy + [const] core::marker::Destruct + Clone> MyTrait for T {}",
        "impl<T: Copy + Clone> MyTrait for T {}",
    );
}

#[test]
fn destruct_bound_multiple_end() {
    check(
        "impl<T: Clone + Copy + [c0nst] Destruct> MyTrait for T {}",
        "impl<T: Clone + Copy + [const] core::marker::Destruct> MyTrait for T {}",
        "impl<T: Clone + Copy> MyTrait for T {}",
    );
}

#[test]
fn stream_entry_matches_trait() {
    let stream: TokenStream = "impl<T: [c0nst] Destruct> c0nst Tr for T {}".parse().unwrap();
    let a = raise(convert_stream(lower(stream.clone()), Target::Nightly)).to_string();
    let b = raise(lower(stream).convert(Target::Nightly)).to_string();
    assert_eq!(a, b);
}

#[test]
fn stable_output_is_stable_under_reconversion() {
    let once = run("c0nst trait T: [c0nst] Destruct + c0nst Clone { fn m([c0nst] x: u8); }", Target::Stable);
    let twice = run(&once, Target::Stable);
    assert_eq!(once, twice);
    assert_eq!(once, squeeze("trait T: Clone { fn m(x: u8); }"));
}

#[test]
fn empty_stream() {
    assert_eq!(run("", Target::Nightly), "");
    assert_eq!(run("", Target::Stable), "");
}

#[test]
fn marker_inside_nested_groups() {
    check("f(( [c0nst] ), { c0nst })", "f(([const]), { const })", "f((), {})");
}

#[test]
fn destruct_not_marked_is_kept() {
    check("impl<T: Destruct + c0nst Clone> X for T {}", "impl<T: Destruct + const Clone> X for T {}", "impl<T: Destruct + Clone> X for T {}");
}

#[test]
fn raw_identifier_is_not_a_marker() {
    check("fn f(r#c0nst: u8) {}", "fn f(r#c0nst: u8) {}", "fn f(r#c0nst: u8) {}");
}

#[test]
fn token_tree_conversion() {
    let tree = Token::Ident("c0nst".to_string());
    assert!(tree.convert(Target::Stable).is_none());
    let tree = Token::Ident("c0nst".to_string());
    match tree.convert(Target::Nightly) {
        Some(Token::Ident(name)) => assert_eq!(name, "const"),
        other => panic!("unexpected {:?}", other),
    }
    let group = Token::Group(Delimiter::Bracket, vec![Token::Ident("c0nst".to_string())]);
    assert!(group.convert(Target::Stable).is_none());
    let group = Token::Group(Delimiter::Bracket, vec![Token::Ident("c0nst".to_string())]);
    let out = raise(vec![group.convert(Target::Nightly).unwrap()]).to_string();
    assert_eq!(squeeze(&out), "[const]");
    let group = Token::Group(
        Delimiter::Parenthesis,
        vec![Token::Ident("c0nst".to_string()), Token::Ident("x".to_string())],
    );
    let out = raise(vec![group.convert(Target::Stable).unwrap()]).to_string();
    assert_eq!(squeeze(&out), "(x)");
    let lit = Token::Literal("42".to_string());
    let out = raise(vec![lit.convert(Target::Stable).unwrap()]).to_string();
    assert_eq!(out, "42");
}

#[test]
fn rendered_text() {
    let stream: TokenStream = "a::b { x } [y] (z)".parse().unwrap();
    let tokens = lower(stream);
    let text: String = tokens.iter().map(|t| t.render().into_iter().collect::<String>()).collect::<Vec<_>>().join("|");
    assert_eq!(text, "a|:|:|b|{ x }|[y]|(z)");
    assert!(tokens[1].same_text(&tokens[2]));
    assert!(!tokens[0].same_text(&tokens[3]));
}
